use bytes::BytesMut;
use proddle::codec::MessageCodec;
use proddle::error::ProddleError;
use proddle::frame::{encode_frame, frame_length};

#[test]
fn encode_update_operations_request() {
    // The encoded form of a synchronisation request without payload: the
    // index of its type, then one byte for each absent payload.
    let message: Vec<u8> = vec![2, 0, 0, 0, 0, 0, 0, 0, 0];

    let mut bytes = BytesMut::with_capacity(1024);
    let mut message_codec = MessageCodec {};

    if let Err(_) = message_codec.encode(&message, &mut bytes) {
        panic!("failed to encode UpdateOperationsRequest");
    }

    match message_codec.decode(&mut bytes) {
        Ok(Some(decoded)) => match decoded[0..4] {
            [2, 0, 0, 0] => println!("decoded UpdateOperationsRequest"),
            _ => panic!("failed to decode UpdateOperationsRequest message_type"),
        },
        _ => panic!("failed to decode UpdateOperationsRequest"),
    }
}

#[test]
fn frame_is_length_then_message() {
    let mut buffer = BytesMut::new();
    MessageCodec.encode(&vec![7, 8, 9], &mut buffer).unwrap();
    assert_eq!(&buffer[..], &[0, 0, 0, 7, 7, 8, 9]);
    MessageCodec.encode(&Vec::new(), &mut buffer).unwrap();
    assert_eq!(&buffer[..], &[0, 0, 0, 7, 7, 8, 9, 0, 0, 0, 4]);
}

#[test]
fn long_frame_has_its_length_most_significant_byte_first() {
    let mut buffer = BytesMut::new();
    MessageCodec.encode(&vec![5u8; 0x01_02_03], &mut buffer).unwrap();
    assert_eq!(&buffer[..4], &[0, 1, 2, 7]);
    assert_eq!(buffer.len(), 0x01_02_03 + 4);
    let decoded = MessageCodec.decode(&mut buffer).unwrap().unwrap();
    assert_eq!(decoded, vec![5u8; 0x01_02_03]);
    assert!(buffer.is_empty());
}

#[test]
fn decode_takes_one_frame_and_leaves_the_rest() {
    let mut buffer = BytesMut::new();
    MessageCodec.encode(&vec![1, 2], &mut buffer).unwrap();
    MessageCodec.encode(&vec![3], &mut buffer).unwrap();
    assert_eq!(MessageCodec.decode(&mut buffer).unwrap(), Some(vec![1, 2]));
    assert_eq!(&buffer[..], &[0, 0, 0, 5, 3]);
    assert_eq!(MessageCodec.decode(&mut buffer).unwrap(), Some(vec![3]));
    assert!(buffer.is_empty());
    assert_eq!(MessageCodec.decode(&mut buffer).unwrap(), None);
}

#[test]
fn decode_waits_for_the_whole_frame() {
    let mut buffer = BytesMut::from(&[0u8, 0, 0][..]);
    assert_eq!(MessageCodec.decode(&mut buffer).unwrap(), None);
    assert_eq!(&buffer[..], &[0, 0, 0]);
    let mut buffer = BytesMut::from(&[0u8, 0, 0, 6, 1][..]);
    assert_eq!(MessageCodec.decode(&mut buffer).unwrap(), None);
    assert_eq!(&buffer[..], &[0, 0, 0, 6, 1]);
    buffer.extend_from_slice(&[2]);
    assert_eq!(MessageCodec.decode(&mut buffer).unwrap(), Some(vec![1, 2]));
}

#[test]
fn decode_of_an_empty_message() {
    let mut buffer = BytesMut::from(&[0u8, 0, 0, 4, 9][..]);
    assert_eq!(MessageCodec.decode(&mut buffer).unwrap(), Some(Vec::new()));
    assert_eq!(&buffer[..], &[9]);
}

#[test]
fn frame_shorter_than_its_header_is_refused() {
    for length in 0u8..4 {
        let mut buffer = BytesMut::from(&[0u8, 0, 0, length, 1, 2, 3][..]);
        assert!(matches!(MessageCodec.decode(&mut buffer), Err(ProddleError::FrameTooShort)));
        assert_eq!(buffer.len(), 7);
    }
}

#[test]
fn stream_frame_has_its_length_least_significant_byte_first() {
    assert_eq!(encode_frame(&vec![7, 8, 9]).unwrap(), vec![3, 0, 0, 0, 7, 8, 9]);
    assert_eq!(encode_frame(&Vec::new()).unwrap(), vec![0, 0, 0, 0]);
    let long = encode_frame(&vec![1u8; 0x01_02_03]).unwrap();
    assert_eq!(&long[..4], &[3, 2, 1, 0]);
    assert_eq!(long.len(), 0x01_02_03 + 4);
}

#[test]
fn frame_length_reads_four_bytes() {
    assert_eq!(frame_length(&vec![3, 0, 0, 0]), Some(3));
    assert_eq!(frame_length(&vec![3, 2, 1, 0]), Some(0x01_02_03));
    assert_eq!(frame_length(&vec![0, 0, 0, 1]), Some(1 << 24));
    assert_eq!(frame_length(&vec![255, 255, 255, 255]), Some(u32::MAX as usize));
    assert_eq!(frame_length(&vec![0, 0, 0, 0]), Some(0));
}

#[test]
fn frame_length_of_anything_but_four_bytes_is_none() {
    assert_eq!(frame_length(&Vec::new()), None);
    assert_eq!(frame_length(&vec![1, 2, 3]), None);
    assert_eq!(frame_length(&vec![1, 2, 3, 4, 5]), None);
}

#[test]
fn frame_length_reads_back_what_encode_frame_wrote() {
    for length in [0usize, 1, 255, 256, 65535, 65536, 70000] {
        let frame = encode_frame(&vec![0u8; length]).unwrap();
        assert_eq!(frame_length(&frame[..4].to_vec()), Some(length));
    }
}
