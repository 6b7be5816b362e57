//! Entry round trips and ELF flag derivation.
use early_paging::entry::{
    Entry, from_elf_section, PRESENT, WRITABLE, NO_EXECUTE, HUGE_PAGE, GLOBAL,
};
use early_paging::frame::Frame;

#[test]
fn entry_round_trip_with_present() {
    let mut entry = Entry::new_unused();
    assert!(entry.is_unused());
    entry.set(Frame::containing_address(0x5000), PRESENT | WRITABLE);
    assert!(!entry.is_unused());
    assert_eq!(entry.flags(), PRESENT | WRITABLE);
    assert_eq!(entry.pointed_frame(), Some(Frame::containing_address(0x5000)));
    entry.set_unused();
    assert!(entry.is_unused());
    assert_eq!(entry.pointed_frame(), None);
}

#[test]
fn entry_without_present_carries_metadata_but_does_not_translate() {
    let mut entry = Entry::new_unused();
    entry.set(Frame::containing_address(0x7000), WRITABLE | GLOBAL);
    assert_eq!(entry.flags(), WRITABLE | GLOBAL);
    assert_eq!(entry.pointed_frame(), None);
}

#[test]
fn entry_round_trip_all_defined_flags() {
    let mut entry = Entry::new_unused();
    let flags = PRESENT | WRITABLE | HUGE_PAGE | NO_EXECUTE;
    entry.set(Frame::containing_address(0xabc000), flags);
    assert_eq!(entry.flags(), flags);
    assert_eq!(entry.pointed_frame(), Some(Frame { number: 0xabc }));
}

#[test]
fn elf_flags_executable_read_only_section() {
    assert_eq!(from_elf_section(true, false, true), PRESENT);
}

#[test]
fn elf_flags_writable_data_section() {
    assert_eq!(from_elf_section(true, true, false), PRESENT | WRITABLE | NO_EXECUTE);
}

#[test]
fn elf_flags_unallocated_section_is_not_present() {
    let flags = from_elf_section(false, false, false);
    assert_eq!(flags & PRESENT, 0);
    assert_eq!(flags, NO_EXECUTE);
}

#[test]
fn elf_flags_not_executable_means_no_execute() {
    assert_eq!(from_elf_section(true, false, false), PRESENT | NO_EXECUTE);
    assert_eq!(from_elf_section(true, true, true), PRESENT | WRITABLE);
}
