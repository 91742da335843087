use art::channel_stack::ChannelStack;
use art::errors::ArtError;

#[test]
fn stack_push_then_pop_restores_position() {
    let mut stack = ChannelStack::new(64);
    assert_eq!(stack.position(), 0);
    let index = stack.push(16).unwrap();
    assert_eq!(index, 0);
    assert_eq!(stack.position(), 16);
    stack.pop(16).unwrap();
    assert_eq!(stack.position(), 0);
}

#[test]
fn stack_pop_beyond_position_underflows() {
    let mut stack = ChannelStack::new(8);
    stack.push(4).unwrap();
    assert_eq!(stack.pop(5), Err(ArtError::StackUnderflow));
    assert_eq!(stack.position(), 4);
}

#[test]
fn stack_push_beyond_capacity_overflows() {
    let mut stack = ChannelStack::new(8);
    stack.push(6).unwrap();
    assert_eq!(stack.push(3), Err(ArtError::StackOverflow));
    assert_eq!(stack.position(), 6);
}

#[test]
fn stack_write_read_and_zero() {
    let mut stack = ChannelStack::new(8);
    stack.push(4).unwrap();
    stack.write(0, &vec![1, 2, 3, 4]).unwrap();
    assert_eq!(stack.read(0, 4).unwrap(), vec![1, 2, 3, 4]);
    stack.zero(1, 2).unwrap();
    assert_eq!(stack.read(0, 4).unwrap(), vec![1, 0, 0, 4]);
    assert_eq!(stack.read(6, 4), Err(ArtError::InvalidStack));
}

#[test]
fn stack_add_mixes_by_wrapping_addition() {
    let mut stack = ChannelStack::new(4);
    stack.write(0, &vec![10, i32::MAX, -5, 0]).unwrap();
    stack.add(0, &vec![5, 1, 5, 0]).unwrap();
    assert_eq!(stack.read(0, 4).unwrap(), vec![15, i32::MIN, 0, 0]);
}
