use rs_ghw::error::FormatError;
use rs_ghw::handle::GHWHandle;
use rs_ghw::kind::GHWHierarchyKind;
use rs_ghw::reader::ByteReader;
use rs_ghw::rtik::GHDLRTIK;
use rs_ghw::section::GHWSection;
use rs_ghw::signals::GHWValue;
use rs_ghw::strings::StringTable;
use rs_ghw::tree::{GHWHierarchy, GHWTypeCommon};
use rs_ghw::types::{GHWWellKnownType, TypeTable};

fn header() -> Vec<u8> {
    let mut b = b"GHDLwave\n".to_vec();
    b.extend_from_slice(&[1, 1, 4, 0]);
    b
}

fn with_strings(names: &[&str]) -> Vec<u8> {
    let mut b = header();
    b.push(1);
    b.push(names.len() as u8);
    for n in names {
        b.push(n.len() as u8);
        b.extend_from_slice(n.as_bytes());
    }
    b
}

/// Strings, one bit type, and a root holding two bit signals `a` and `b`.
fn two_bits() -> Vec<u8> {
    let mut b = with_strings(&["bit", "'0'", "'1'", "a", "b"]);
    b.extend_from_slice(&[3, 1, 22, 1, 2, 2, 3]);
    b.extend_from_slice(&[2, 16, 4, 0, 16, 5, 0, 0]);
    b.push(5);
    b
}

fn base_error(bytes: Vec<u8>) -> FormatError {
    let mut h = GHWHandle::from_bytes(bytes);
    h.read_base().unwrap_err()
}

fn count_nodes(h: &GHWHierarchy, seen: &mut Vec<usize>) {
    seen.push(h.index);
    for c in h.children() {
        assert_eq!(c.parent().unwrap().index, h.index);
        count_nodes(&c, seen);
    }
}

#[test]
fn varint_reads_seven_bits_per_byte() {
    let mut rd = ByteReader::new(vec![0xe5, 0x8e, 0x26, 0x05]);
    assert_eq!(rd.read_varint(), Ok(624485));
    assert_eq!(rd.pos, 3);
    assert_eq!(rd.read_varint(), Ok(5));
    assert_eq!(rd.read_varint(), Err(FormatError::Truncated));
}

#[test]
fn varint_longer_than_five_bytes_overflows() {
    let mut rd = ByteReader::new(vec![0x80, 0x80, 0x80, 0x80, 0x80, 0x01]);
    assert_eq!(rd.read_varint(), Err(FormatError::Overflow));
    assert_eq!(rd.pos, 0);
    let mut rd = ByteReader::new(vec![0xff, 0xff, 0xff, 0xff, 0x1f]);
    assert_eq!(rd.read_varint(), Err(FormatError::Overflow));
    let mut rd = ByteReader::new(vec![0xff, 0xff, 0xff, 0xff, 0x0f]);
    assert_eq!(rd.read_varint(), Ok(u32::MAX));
}

#[test]
fn fixed_width_follows_byte_order() {
    let mut rd = ByteReader::new(vec![1, 2, 3, 4, 0xff, 0xff, 0xff, 0xff, 0xff, 0xff, 0xff, 0xff]);
    assert_eq!(rd.read_fixed(4), Ok(0x04030201));
    assert_eq!(rd.read_i64(), Ok(-1));
    let mut rd = ByteReader::new(vec![1, 2, 3, 4, 0x80, 0, 0, 0]);
    rd.big_endian = true;
    assert_eq!(rd.read_fixed(4), Ok(0x01020304));
    assert_eq!(rd.read_i32(), Ok(i32::MIN));
    assert_eq!(rd.read_u8(), Err(FormatError::Truncated));
    let mut rd = ByteReader::new(vec![1, 2, 3]);
    assert_eq!(rd.read_i32(), Err(FormatError::Truncated));
    assert_eq!(rd.pos, 0);
}

#[test]
fn read_bytes_takes_the_next_bytes() {
    let mut rd = ByteReader::new(vec![9, 8, 7]);
    assert_eq!(rd.read_bytes(2), Ok(vec![9, 8]));
    assert_eq!(rd.read_bytes(2), Err(FormatError::Truncated));
    assert!(!rd.at_end());
}

#[test]
fn string_table_resolves_from_one() {
    let mut rd = ByteReader::new(vec![2, 2, b'a', b'b', 0]);
    let t = StringTable::intern_all(&mut rd).unwrap();
    assert_eq!(t.count(), 2);
    assert_eq!(t.resolve(0), Ok(None));
    assert_eq!(t.resolve(1), Ok(Some(&b"ab".to_vec())));
    assert_eq!(t.resolve(2), Ok(Some(&Vec::new())));
    assert_eq!(t.resolve(3), Err(FormatError::BadStringIndex));
}

#[test]
fn string_section_cut_short_is_truncated() {
    let mut rd = ByteReader::new(vec![2, 3, b'a']);
    assert_eq!(StringTable::intern_all(&mut rd).err(), Some(FormatError::Truncated));
}

#[test]
fn tags_decode_exhaustively() {
    assert_eq!(GHWSection::from_i32(7), Ok(GHWSection::Cycle));
    assert_eq!(GHWSection::from_i32(10), Err(FormatError::UnknownSection));
    assert_eq!(GHWHierarchyKind::from_i32(13), Ok(GHWHierarchyKind::Process));
    assert_eq!(GHWHierarchyKind::from_i32(2), Err(FormatError::MalformedHierarchy));
    assert_eq!(GHWWellKnownType::from_i32(3), Ok(GHWWellKnownType::StdULogic));
    assert_eq!(GHWWellKnownType::from_i32(4), Err(FormatError::MalformedType));
    assert_eq!(GHDLRTIK::from_i32(40), Ok(GHDLRTIK::Error));
    assert_eq!(GHDLRTIK::from_i32(22), Ok(GHDLRTIK::TypeB2));
    assert_eq!(GHDLRTIK::from_i32(41), Err(FormatError::MalformedType));
    assert_eq!(GHDLRTIK::from_i32(-1), Err(FormatError::MalformedType));
}

#[test]
fn kind_labels() {
    assert_eq!(GHWHierarchyKind::PortInOut.label(), "port-inout");
    assert_eq!(GHWHierarchyKind::EndOfSection.label(), "eos");
    assert!(GHWHierarchyKind::GenerateFor.is_scope());
    assert!(GHWHierarchyKind::Generic.is_leaf());
    assert!(!GHWHierarchyKind::EOH.is_scope() && !GHWHierarchyKind::EOH.is_leaf());
}

#[test]
fn snapshot_and_cycles_advance_time() {
    let mut b = two_bits();
    b.extend_from_slice(&[6, 1, 0]);
    b.push(7);
    b.extend_from_slice(&5i64.to_le_bytes());
    b.extend_from_slice(&[2, 1, 0]);
    b.push(7);
    b.extend_from_slice(&0i64.to_le_bytes());
    b.extend_from_slice(&[1, 0, 0]);
    b.push(9);
    let mut h = GHWHandle::from_bytes(b);
    h.read_base().unwrap();
    assert_eq!(h.number_of_signals(), 2);
    assert_eq!(h.read_section(), Ok(Some(GHWSection::Snapshot)));
    assert_eq!(h.slots[0].value, GHWValue::B2(1));
    assert_eq!(h.slots[1].value, GHWValue::B2(0));
    assert_eq!(h.read_section(), Ok(Some(GHWSection::Cycle)));
    assert_eq!(h.next_time(), 5);
    assert_eq!(h.slots[1].value, GHWValue::B2(1));
    assert_eq!(h.slots[1].last_change, 5);
    assert_eq!(h.slots[0].last_change, 0);
    assert_eq!(h.read_section(), Ok(Some(GHWSection::Cycle)));
    assert_eq!(h.next_time(), 5);
    assert_eq!(h.slots[0].value, GHWValue::B2(0));
    assert_eq!(h.read_section(), Ok(Some(GHWSection::Tailer)));
    assert_eq!(h.read_section(), Ok(None));
}

#[test]
fn cycle_going_back_in_time_is_rejected() {
    let mut b = two_bits();
    b.extend_from_slice(&[6, 1, 0, 7]);
    b.extend_from_slice(&(-3i64).to_le_bytes());
    let mut h = GHWHandle::from_bytes(b);
    h.read_base().unwrap();
    assert_eq!(h.read_section(), Ok(Some(GHWSection::Snapshot)));
    assert_eq!(h.read_section(), Err(FormatError::NonMonotonicTime));
    assert_eq!(h.next_time(), 0);
}

#[test]
fn cycle_past_last_slot_is_rejected() {
    let mut b = two_bits();
    b.extend_from_slice(&[6, 1, 0, 7]);
    b.extend_from_slice(&1i64.to_le_bytes());
    b.extend_from_slice(&[3, 1, 0]);
    let mut h = GHWHandle::from_bytes(b);
    h.read_base().unwrap();
    h.read_section().unwrap();
    assert_eq!(h.read_section(), Err(FormatError::BadSignalIndex));
}

#[test]
fn cycle_before_snapshot_is_out_of_order() {
    let mut b = two_bits();
    b.push(7);
    b.extend_from_slice(&1i64.to_le_bytes());
    b.push(0);
    let mut h = GHWHandle::from_bytes(b);
    h.read_base().unwrap();
    assert_eq!(h.read_section(), Err(FormatError::OutOfOrderSection));
}

#[test]
fn snapshot_value_outside_enumeration_is_rejected() {
    let mut b = two_bits();
    b.extend_from_slice(&[6, 1, 2]);
    let mut h = GHWHandle::from_bytes(b);
    h.read_base().unwrap();
    assert_eq!(h.read_section(), Err(FormatError::ValueTypeMismatch));
}

#[test]
fn header_errors() {
    let mut b = header();
    b[0] = b'X';
    assert_eq!(base_error(b), FormatError::HeaderMismatch);
    let mut b = header();
    b[10] = 3;
    assert_eq!(base_error(b), FormatError::HeaderMismatch);
    assert_eq!(base_error(b"GHDL".to_vec()), FormatError::Truncated);
    assert_eq!(base_error(Vec::new()), FormatError::Truncated);
}

#[test]
fn big_endian_header_is_taken() {
    let mut b = header();
    b[10] = 2;
    let mut rd = ByteReader::new(b);
    assert_eq!(rs_ghw::handle::read_header(&mut rd), Ok(()));
    assert!(rd.big_endian);
    assert_eq!(rd.pos, 13);
}

#[test]
fn unknown_section_tag() {
    let mut b = header();
    b.push(12);
    assert_eq!(base_error(b), FormatError::UnknownSection);
}

#[test]
fn types_before_strings_are_out_of_order() {
    let mut b = header();
    b.extend_from_slice(&[3, 0]);
    assert_eq!(base_error(b), FormatError::OutOfOrderSection);
}

#[test]
fn forward_type_reference() {
    let mut b = with_strings(&["arr"]);
    b.extend_from_slice(&[3, 1, 31, 1, 0, 0]);
    assert_eq!(base_error(b), FormatError::ForwardTypeReference);
}

#[test]
fn type_kind_that_is_no_type() {
    let mut b = with_strings(&["x"]);
    b.extend_from_slice(&[3, 1, 14, 1]);
    assert_eq!(base_error(b), FormatError::MalformedType);
}

#[test]
fn bad_string_index_in_type() {
    let mut b = with_strings(&["x"]);
    b.extend_from_slice(&[3, 1, 25, 2]);
    assert_eq!(base_error(b), FormatError::BadStringIndex);
}

#[test]
fn malformed_hierarchy_tags() {
    let mut b = two_bits();
    b.truncate(b.len() - 8);
    b.extend_from_slice(&[15, 0]);
    assert_eq!(base_error(b), FormatError::MalformedHierarchy);
    let mut b = two_bits();
    b.truncate(b.len() - 8);
    b.extend_from_slice(&[6, 1, 0]);
    assert_eq!(base_error(b), FormatError::MalformedHierarchy);
    let mut b = two_bits();
    b.truncate(b.len() - 8);
    b.extend_from_slice(&[1, 1, 15, 0]);
    assert_eq!(base_error(b), FormatError::MalformedHierarchy);
}

#[test]
fn hierarchy_without_end_of_header_is_truncated() {
    let mut b = two_bits();
    b.pop();
    assert_eq!(base_error(b), FormatError::Truncated);
}

#[test]
fn flattened_types_take_one_slot_per_scalar() {
    let mut b = with_strings(&["bit", "'0'", "'1'", "int", "idx", "arr", "a3", "rec", "x", "y", "s", "t"]);
    b.extend_from_slice(&[3, 6]);
    b.extend_from_slice(&[22, 1, 2, 2, 3]);
    b.extend_from_slice(&[25, 4]);
    b.extend_from_slice(&[34, 5, 1, 0]);
    b.extend_from_slice(&0u64.to_le_bytes());
    b.extend_from_slice(&2u64.to_le_bytes());
    b.extend_from_slice(&[31, 6, 0, 1, 2]);
    b.extend_from_slice(&[35, 7, 3, 3]);
    b.extend_from_slice(&[32, 8, 2, 9, 0, 10, 1]);
    b.extend_from_slice(&[2, 16, 11, 4, 16, 12, 5, 0, 5]);
    let mut h = GHWHandle::from_bytes(b);
    h.read_base().unwrap();
    assert_eq!(h.number_of_types(), 6);
    assert_eq!(h.number_of_signals(), 5);
    let t = h.tree.as_ref().unwrap();
    assert_eq!(t.design.slot_types, vec![0, 0, 0, 0, 1]);
    let common = GHWTypeCommon { tree: t.clone(), index: 3 };
    assert_eq!(common.kind(), GHDLRTIK::TypeArray);
    assert_eq!(common.name(), Some("arr".to_string()));
}

#[test]
fn unbounded_signal_is_malformed() {
    let mut b = with_strings(&["bit", "'0'", "'1'", "idx", "arr", "s"]);
    b.extend_from_slice(&[3, 2, 22, 1, 2, 2, 3, 31, 5, 0, 1, 0]);
    b.extend_from_slice(&[2, 16, 6, 1, 0, 5]);
    assert_eq!(base_error(b), FormatError::MalformedHierarchy);
}

#[test]
fn well_known_type_must_be_enumeration() {
    let mut b = with_strings(&["int"]);
    b.extend_from_slice(&[3, 1, 25, 1, 4, 1, 0, 0]);
    assert_eq!(base_error(b), FormatError::MalformedType);
    let mut b = with_strings(&["bit", "'0'", "'1'"]);
    b.extend_from_slice(&[3, 1, 22, 1, 2, 2, 3, 4, 2, 0, 0, 2, 0, 5]);
    let mut h = GHWHandle::from_bytes(b);
    h.read_base().unwrap();
    assert_eq!(h.tree.as_ref().unwrap().types.entries[0].wkt, GHWWellKnownType::Bit);
}

#[test]
fn walk_from_root_meets_each_node_once() {
    let mut b = two_bits();
    b.truncate(b.len() - 2);
    b.extend_from_slice(&[3, 1, 13, 2, 15, 16, 3, 0, 15, 0, 5]);
    let mut h = GHWHandle::from_bytes(b);
    h.read_base().unwrap();
    let root = h.hierarchy().unwrap();
    let mut seen = Vec::new();
    count_nodes(&root, &mut seen);
    seen.sort();
    let all: Vec<usize> = (0..root.tree.design.nodes.len()).collect();
    assert_eq!(seen, all);
    assert_eq!(root.parent().map(|p| p.index), None);
    let kids = root.children();
    assert_eq!(kids.len(), 3);
    assert_eq!(kids[0].brother().unwrap().index, kids[1].index);
    assert!(kids[2].brother().is_none());
    assert_eq!(kids[2].kind(), GHWHierarchyKind::Block);
    assert_eq!(kids[2].child_scopes().len(), 1);
    assert_eq!(kids[2].child_variables().len(), 1);
}

#[test]
fn directory_and_null_sections_are_passed_over() {
    let mut b = with_strings(&["bit", "'0'", "'1'", "a"]);
    b.extend_from_slice(&[0, 8, 1, 3]);
    b.extend_from_slice(&100u32.to_le_bytes());
    b.extend_from_slice(&[3, 1, 22, 1, 2, 2, 3, 2, 16, 4, 0, 0, 5, 8, 0, 6, 1, 9]);
    let mut h = GHWHandle::from_bytes(b);
    h.read_base().unwrap();
    assert_eq!(h.read_section(), Ok(Some(GHWSection::Directory)));
    assert_eq!(h.read_section(), Ok(Some(GHWSection::Snapshot)));
    assert_eq!(h.read_section(), Ok(Some(GHWSection::Tailer)));
}

#[test]
fn counts_before_reading_are_zero() {
    let mut h = GHWHandle::new();
    assert_eq!(h.number_of_signals(), 0);
    assert_eq!(h.number_of_strings(), 0);
    assert_eq!(h.number_of_types(), 0);
    assert!(h.hierarchy().is_none());
    assert_eq!(h.read_section(), Ok(None));
    h.set_verbose(true);
    assert!(h.verbose);
}

#[test]
fn empty_type_table() {
    let mut rd = ByteReader::new(vec![0]);
    let t = TypeTable::decode_types(&mut rd, 1).ok().unwrap();
    assert_eq!(t.count(), 0);
}
