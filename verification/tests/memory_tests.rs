use librchip::Chip8Error;
use librchip::memory::{Memory, MEM_SIZE};

#[test]
fn new_memory_is_zeroed() {
    let m = Memory::new();
    assert_eq!(m.get(0), 0);
    assert_eq!(m.get(0x200), 0);
    assert_eq!(m.get((MEM_SIZE - 1) as u16), 0);
}

#[test]
fn set_then_get_round_trips() {
    let mut m = Memory::new();
    m.set(0x300, 0xAB);
    assert_eq!(m.get(0x300), 0xAB);
    assert_eq!(m.get(0x301), 0);
}

#[test]
fn get_instr_is_big_endian() {
    let mut m = Memory::new();
    m.set(0x200, 0x12);
    m.set(0x201, 0x34);
    assert_eq!(m.get_instr(0x200), Ok(0x1234));
}

#[test]
fn get_instr_at_top_of_memory_fails() {
    let m = Memory::new();
    assert_eq!(m.get_instr((MEM_SIZE - 1) as u16), Err(Chip8Error::MemoryOutOfBounds));
    assert!(m.get_instr((MEM_SIZE - 2) as u16).is_ok());
}

#[test]
fn map_range_then_get_range_round_trips() {
    let mut m = Memory::new();
    let data = [1u8, 2, 3, 4, 5];
    assert_eq!(m.map_range(100, 5, &data), Ok(()));
    let back = m.get_range(100, 5).expect("in bounds");
    assert_eq!(back, vec![1, 2, 3, 4, 5]);
    assert_eq!(m.get(99), 0);
    assert_eq!(m.get(105), 0);
}

#[test]
fn map_range_past_capacity_fails_and_changes_nothing() {
    let mut m = Memory::new();
    let data = [9u8, 9, 9];
    assert_eq!(m.map_range(MEM_SIZE - 2, 3, &data), Err(Chip8Error::MemoryOutOfBounds));
    assert_eq!(m.get((MEM_SIZE - 2) as u16), 0);
    assert_eq!(m.get((MEM_SIZE - 1) as u16), 0);
}

#[test]
fn get_range_past_capacity_fails() {
    let m = Memory::new();
    assert_eq!(m.get_range(MEM_SIZE - 1, 2), Err(Chip8Error::MemoryOutOfBounds));
    assert_eq!(m.get_range(MEM_SIZE, 1), Err(Chip8Error::MemoryOutOfBounds));
    assert!(m.get_range(MEM_SIZE - 1, 1).is_ok());
}
