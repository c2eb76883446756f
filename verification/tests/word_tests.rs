use deet::word::{align_addr_to_word, extract_byte, set_byte_in_word, TRAP_BYTE};

#[test]
fn alignment_rounds_down_to_words() {
    assert_eq!(align_addr_to_word(0x1000), 0x1000);
    assert_eq!(align_addr_to_word(0x1007), 0x1000);
    assert_eq!(align_addr_to_word(0x1008), 0x1008);
    assert_eq!(align_addr_to_word(5), 0);
}

#[test]
fn byte_extraction_is_little_endian() {
    let w: u64 = 0x1122334455667788;
    assert_eq!(extract_byte(w, 0), 0x88);
    assert_eq!(extract_byte(w, 3), 0x55);
    assert_eq!(extract_byte(w, 7), 0x11);
}

#[test]
fn patching_one_byte_keeps_the_others() {
    let w: u64 = 0x1122334455667788;
    let patched = set_byte_in_word(w, 2, TRAP_BYTE);
    assert_eq!(patched, 0x11223344_55cc7788);
    assert_eq!(extract_byte(patched, 2), 0xcc);
    for off in [0usize, 1, 3, 4, 5, 6, 7] {
        assert_eq!(extract_byte(patched, off), extract_byte(w, off));
    }
    // Restoring the original byte undoes the patch.
    assert_eq!(set_byte_in_word(patched, 2, 0x66), w);
}
