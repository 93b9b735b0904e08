use packet::buffer::{Buffer, Dynamic, Fixed};
use packet::error::ErrorKind;

#[test]
fn dynamic_buffer_grows_layer_by_layer() {
    let mut buffer = Dynamic::new();
    assert_eq!(buffer.offset(), 0);
    assert_eq!(buffer.length(), 0);
    assert_eq!(buffer.data(), &[] as &[u8]);

    buffer.next(3).unwrap();
    assert_eq!(buffer.offset(), 0);
    assert_eq!(buffer.length(), 3);
    buffer.data_mut().copy_from_slice(&[1, 2, 3]);

    buffer.more(2).unwrap();
    assert_eq!(buffer.offset(), 0);
    assert_eq!(buffer.length(), 5);
    assert_eq!(buffer.data(), &[1, 2, 3, 0, 0]);

    buffer.next(2).unwrap();
    assert_eq!(buffer.offset(), 5);
    assert_eq!(buffer.length(), 7);
    assert_eq!(buffer.data(), &[0, 0]);
    buffer.data_mut()[1] = 9;

    buffer.more(1).unwrap();
    assert_eq!(buffer.offset(), 5);
    assert_eq!(buffer.data(), &[0, 9, 0]);

    assert_eq!(buffer.into_inner(), vec![1, 2, 3, 0, 0, 0, 9, 0]);
}

#[test]
fn default_dynamic_buffer_is_empty() {
    let buffer = Dynamic::default();
    assert_eq!(buffer.length(), 0);
    assert_eq!(buffer.into_inner(), Vec::<u8>::new());
}

#[test]
fn dynamic_buffer_refuses_what_cannot_be_counted() {
    let mut buffer = Dynamic::new();
    buffer.next(1).unwrap();
    assert_eq!(buffer.more(usize::MAX), Err(ErrorKind::SmallBuffer));
    assert_eq!(buffer.next(usize::MAX), Err(ErrorKind::SmallBuffer));
    assert_eq!(buffer.offset(), 0);
    assert_eq!(buffer.length(), 1);
}

#[test]
fn fixed_buffer_stops_at_its_capacity() {
    let mut buffer = Fixed::new(4);
    assert_eq!(buffer.next(5), Err(ErrorKind::SmallBuffer));
    assert_eq!(buffer.length(), 0);

    buffer.next(3).unwrap();
    assert_eq!(buffer.more(2), Err(ErrorKind::SmallBuffer));
    assert_eq!(buffer.next(2), Err(ErrorKind::SmallBuffer));
    assert_eq!(buffer.offset(), 0);
    assert_eq!(buffer.length(), 3);

    buffer.more(1).unwrap();
    assert_eq!(buffer.length(), 4);
    assert_eq!(buffer.more(0), Ok(()));
    assert_eq!(buffer.more(1), Err(ErrorKind::SmallBuffer));

    buffer.next(0).unwrap();
    assert_eq!(buffer.offset(), 4);
    assert_eq!(buffer.data(), &[] as &[u8]);
    assert_eq!(buffer.into_inner(), vec![0, 0, 0, 0]);
}

#[test]
fn fixed_buffer_keeps_earlier_layers() {
    let mut buffer = Fixed::new(8);
    buffer.next(2).unwrap();
    buffer.data_mut().copy_from_slice(&[5, 6]);
    buffer.next(2).unwrap();
    buffer.data_mut().copy_from_slice(&[7, 8]);
    assert_eq!(buffer.data(), &[7, 8]);
    assert_eq!(buffer.into_inner(), vec![5, 6, 7, 8]);
}
