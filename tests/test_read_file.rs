use rs_ghw::handle::GHWHandle;
use rs_ghw::kind::GHWHierarchyKind;

fn header() -> Vec<u8> {
    let mut b = b"GHDLwave\n".to_vec();
    b.extend_from_slice(&[1, 1, 4, 0]);
    b
}

fn strings(b: &mut Vec<u8>, names: &[&str]) {
    b.push(1);
    b.push(names.len() as u8);
    for n in names {
        b.push(n.len() as u8);
        b.extend_from_slice(n.as_bytes());
    }
}

/// A design like the adder testbench: a `standard` package, and an
/// `adder_tb` instance holding five bit signals, an instance with one port
/// and a process.
fn adder_tb() -> Vec<u8> {
    let mut b = header();
    strings(
        &mut b,
        &["standard", "adder_tb", "bit", "'0'", "'1'", "a", "b", "ci", "s", "co", "adder_0", "p0", "x1", "x2"],
    );
    // one type: bit, a two-valued enumeration
    b.extend_from_slice(&[3, 1, 22, 3, 2, 4, 5]);
    // bit is well known
    b.extend_from_slice(&[4, 2, 0, 0]);
    // hierarchy
    b.push(2);
    b.extend_from_slice(&[7, 1, 15]);
    b.extend_from_slice(&[6, 2]);
    for name in 6..=10u8 {
        b.extend_from_slice(&[16, name, 0]);
    }
    b.extend_from_slice(&[6, 11, 17, 13, 0, 15]);
    b.extend_from_slice(&[13, 12, 15]);
    b.extend_from_slice(&[15, 0]);
    b.push(5);
    // snapshot of six bits, one cycle, tailer
    b.extend_from_slice(&[6, 0, 1, 0, 1, 0, 1]);
    b.push(7);
    b.extend_from_slice(&10i64.to_le_bytes());
    b.extend_from_slice(&[1, 1, 0]);
    b.push(9);
    b
}

/// A richer design: two packages, and a `test` instance with a vector
/// signal, a record signal and a block that holds one of each again.
fn vhdl_features() -> Vec<u8> {
    let mut b = header();
    strings(
        &mut b,
        &[
            "standard", "std_logic_1164", "test", "boolean", "false", "true", "std_ulogic", "'U'", "'X'",
            "'0'", "'1'", "'Z'", "'W'", "'L'", "'H'", "'-'", "integer", "natural", "std_ulogic_vector",
            "vec4", "rec", "f1", "f2", "real", "time", "fs", "v", "r", "blk",
        ],
    );
    b.extend_from_slice(&[3, 9]);
    // 0: boolean
    b.extend_from_slice(&[22, 4, 2, 5, 6]);
    // 1: std_ulogic
    b.extend_from_slice(&[23, 7, 9, 8, 9, 10, 11, 12, 13, 14, 15, 16]);
    // 2: integer
    b.extend_from_slice(&[25, 17]);
    // 3: natural, a range subtype of integer: 0 to 2147483647
    b.extend_from_slice(&[34, 18, 2, 0]);
    b.extend_from_slice(&0u64.to_le_bytes());
    b.extend_from_slice(&2147483647u64.to_le_bytes());
    // 4: std_ulogic_vector, indexed by natural
    b.extend_from_slice(&[31, 19, 1, 1, 3]);
    // 5: vec4, four elements
    b.extend_from_slice(&[35, 20, 4, 4]);
    // 6: rec with a std_ulogic and an integer field
    b.extend_from_slice(&[32, 21, 2, 22, 1, 23, 2]);
    // 7: real
    b.extend_from_slice(&[27, 24]);
    // 8: time, in femtoseconds
    b.extend_from_slice(&[29, 25, 1, 26]);
    b.extend_from_slice(&1i64.to_le_bytes());
    b.extend_from_slice(&[4, 1, 0, 3, 1, 0]);
    b.push(2);
    b.extend_from_slice(&[7, 1, 15, 7, 2, 15]);
    b.extend_from_slice(&[6, 3, 16, 27, 5, 16, 28, 6, 3, 29, 16, 27, 5, 16, 28, 6, 15, 15]);
    b.push(0);
    b.push(5);
    b
}

#[test]
pub fn test_read_file_lib() {
    let mut ghw_h = GHWHandle::from_bytes(adder_tb());
    ghw_h.set_full_names(true);
    assert!(ghw_h.read_base().is_ok());
    let hierarchy = ghw_h.hierarchy().unwrap();
    assert_eq!(ghw_h.number_of_signals(), 6);
    assert_eq!(ghw_h.number_of_strings(), 14);
    assert_eq!(ghw_h.number_of_types(), 1);
    assert_eq!(hierarchy.name(), None);
    assert_eq!(hierarchy.kind(), GHWHierarchyKind::Design);
    let children = hierarchy.children();
    assert_eq!(children.len(), 2);
    let pack = &children[0];
    assert_eq!(pack.kind(), GHWHierarchyKind::Package);
    assert_eq!(pack.name(), Some("standard".to_string()));
    assert_eq!(pack.children().len(), 0);
    let inst = &children[1];
    assert_eq!(inst.kind(), GHWHierarchyKind::Instance);
    assert_eq!(inst.children().len(), 7);
    assert_eq!(inst.name(), Some("adder_tb".to_string()));
    assert_eq!(inst.child_scopes().len(), 2);
    assert_eq!(inst.child_variables().len(), 5);
    assert_eq!(ghw_h.next_time(), 0);
    ghw_h.close();
}

#[test]
pub fn test_read_file_vhdl_features() {
    let mut ghw_h = GHWHandle::from_bytes(vhdl_features());
    ghw_h.set_full_names(true);
    assert!(ghw_h.read_base().is_ok());
    let hierarchy = ghw_h.hierarchy().unwrap();
    assert_eq!(ghw_h.number_of_signals(), 12);
    assert_eq!(ghw_h.number_of_strings(), 29);
    assert_eq!(ghw_h.number_of_types(), 9);
    assert_eq!(hierarchy.name(), None);
    assert_eq!(hierarchy.kind(), GHWHierarchyKind::Design);
    let children = hierarchy.children();
    assert_eq!(children.len(), 3);
    let pack = &children[0];
    assert_eq!(pack.kind(), GHWHierarchyKind::Package);
    assert_eq!(pack.name(), Some("standard".to_string()));
    assert_eq!(pack.children().len(), 0);
    let inst = &children[1];
    assert_eq!(inst.kind(), GHWHierarchyKind::Package);
    assert_eq!(inst.children().len(), 0);
    assert_eq!(inst.name(), Some("std_logic_1164".to_string()));
    assert_eq!(inst.child_scopes().len(), 0);
    assert_eq!(inst.child_variables().len(), 0);
    let inst = &children[2];
    assert_eq!(inst.kind(), GHWHierarchyKind::Instance);
    assert_eq!(inst.children().len(), 3);
    assert_eq!(inst.name(), Some("test".to_string()));
    assert_eq!(inst.child_scopes().len(), 1);
    assert_eq!(inst.child_variables().len(), 2);
    assert_eq!(ghw_h.next_time(), 0);
    ghw_h.close();
}
