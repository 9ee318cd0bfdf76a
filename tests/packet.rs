use gnet::packet::{
    get_header, get_parcel_segment, get_stream_segment, is_valid, read_connection_id, read_header,
    write_data, write_header, clear_remaining_data, HeaderError, PacketHeader, PacketIndex, Signal,
    SignalBits, HEADER_SIZE, PACKET_SIZE,
};

#[test]
fn set_sizes_are_correct() {
    let mut bits = SignalBits::volatile(1024);

    assert_eq!(bits.0, 0x0020_0000);

    bits.set_stream_byte_count(11);
    bits.set_parcel_byte_count(256);

    assert_eq!(bits.0, 0x0008000B);
}

#[test]
fn packet_set_sizes_are_correct() {
    let mut bits = SignalBits::volatile(1024);

    assert_eq!(bits.0, 0x0020_0000);

    bits.set_stream_byte_count(11);
    bits.set_parcel_byte_count(256);

    assert_eq!(bits.0, 0x0008000B);
    assert_eq!(bits.get_parcel_byte_count(), 256);
    assert_eq!(bits.get_stream_byte_count(), 11);
}

#[test]
fn packet_index_order_is_correct() {
    let smaller: PacketIndex = 0.into();
    let greater: PacketIndex = 1.into();

    assert!(smaller < greater);

    let smaller: PacketIndex = 200.into();
    let greater: PacketIndex = 1.into();

    assert!(smaller < greater);

    let smaller: PacketIndex = 60.into();
    let greater: PacketIndex = 180.into();

    assert!(smaller < greater);
}

#[test]
fn packet_packet_index_order_is_correct() {
    let smaller: PacketIndex = 0.into();
    let greater: PacketIndex = 1.into();

    assert!(smaller < greater);

    let smaller: PacketIndex = 200.into();
    let greater: PacketIndex = 1.into();

    assert!(smaller < greater);

    let smaller: PacketIndex = 60.into();
    let greater: PacketIndex = 180.into();

    assert!(smaller < greater);
    assert_eq!(PacketIndex(10).partial_cmp(&PacketIndex(138)), None);
    assert!(PacketIndex(10) < PacketIndex(137));
    assert!(PacketIndex(10) > PacketIndex(139));
}

fn check_header_acknowledgement() {
    let mut header = PacketHeader::request_connection(0);

    header.ack_packet_id = 17.into();
    header.ack_packet_mask = 7 << 14;

    assert_eq!(header.acknowledges(17.into()), false);

    header.signal.clear_signal(Signal::ConnectionRequest);

    assert_eq!(header.acknowledges(17.into()), true);
    assert_eq!(header.acknowledges(0.into()), true);
    assert_eq!(header.acknowledges(1.into()), true);
    assert_eq!(header.acknowledges(2.into()), true);

    assert_eq!(header.acknowledges(3.into()), false);
    assert_eq!(header.acknowledges(16.into()), false);
    assert_eq!(header.acknowledges(18.into()), false);
}

#[test]
fn packet_header_acknowledgement_is_correct() {
    check_header_acknowledgement();
}

#[test]
fn packet_packet_header_acknowledgement_is_correct() {
    check_header_acknowledgement();
}

#[test]
fn sizes_are_as_expected() {
    assert_eq!(std::mem::size_of::<PacketHeader>(), 24);
    assert_eq!(PACKET_SIZE, 1048);
    assert_eq!(HEADER_SIZE, 24);
}

#[test]
fn signal_constructors_set_expected_bits() {
    assert_eq!(SignalBits::keep_alive().0, 0);
    assert_eq!(SignalBits::request_connection(7).0, 0x0040_0007);
    assert_eq!(SignalBits::reject(3).0, 0x0080_0003);
    assert_eq!(SignalBits::synchronized(2, 5).0, 0x0100_1005);
    assert!(SignalBits::synchronized(2, 5).is_signal_set(Signal::Synchronized));
    assert!(SignalBits::keep_alive().is_empty());
    assert!(!SignalBits::volatile(1).is_empty());
    let mut bits = SignalBits::keep_alive();
    bits.set_signal(Signal::ConnectionClosed);
    assert_eq!(bits.0, 0x0080_0000);
    assert!(SignalBits::request_connection(4).is_valid_connectionless());
    assert!(SignalBits::reject(0).is_valid_connectionless());
    assert!(!SignalBits::volatile(4).is_valid_connectionless());
    assert!(!SignalBits(0x0040_0000 | 0x0080_0000).is_valid());
    assert!(!SignalBits(0x0200_0000).is_valid());
}

fn sample_header() -> PacketHeader {
    PacketHeader {
        connection_id: 0x0102,
        packet_id: PacketIndex(3),
        ack_packet_id: PacketIndex(4),
        ack_packet_mask: 0x1122_3344_5566_7788,
        signal: SignalBits::synchronized(2, 3),
        prelude: [9, 8, 7, 6],
    }
}

#[test]
fn header_wire_layout() {
    let mut buffer = [0xEE; 29];
    write_header(&mut buffer, sample_header());
    assert_eq!(
        &buffer[..24],
        &[
            0x02, 0x01, 3, 4, 0x88, 0x77, 0x66, 0x55, 0x44, 0x33, 0x22, 0x11, 0x03, 0x10, 0x00,
            0x01, 9, 8, 7, 6, 0, 0, 0, 0,
        ]
    );
    assert_eq!(&buffer[24..], &[0xEE; 5]);
    assert_eq!(read_connection_id(&buffer), 0x0102);
}

#[test]
fn header_round_trip() {
    let mut buffer = [0u8; 40];
    let header = sample_header();
    write_header(&mut buffer, header);
    assert_eq!(read_header(&buffer), Ok(header));
    assert_eq!(get_header(&buffer), header);
    write_data(&mut buffer, &[1, 2, 3, 4, 5], 0);
    assert_eq!(get_parcel_segment(&buffer), &[1, 2]);
    assert_eq!(get_stream_segment(&buffer), &[3, 4, 5]);
    assert!(is_valid(&buffer));
    clear_remaining_data(&mut buffer, 2);
    assert_eq!(&buffer[24..29], &[1, 2, 0, 0, 0]);
}

#[test]
fn header_errors() {
    let mut buffer = [0u8; 26];
    assert_eq!(read_header(&buffer[..23]), Err(HeaderError::PayloadLengthMismatch));
    let mut header = sample_header();
    write_header(&mut buffer, header);
    // Declares 5 payload bytes, only 2 follow.
    assert_eq!(read_header(&buffer), Err(HeaderError::PayloadLengthMismatch));
    header.signal = SignalBits(0x0200_0000);
    write_header(&mut buffer, header);
    assert_eq!(read_header(&buffer), Err(HeaderError::ReservedBitsNonZero));
    header.signal = SignalBits::keep_alive();
    write_header(&mut buffer, header);
    buffer[21] = 1;
    assert_eq!(read_header(&buffer), Err(HeaderError::ReservedBitsNonZero));
    header.signal = SignalBits(0x00C0_0000);
    write_header(&mut buffer, header);
    assert_eq!(read_header(&buffer), Err(HeaderError::InvalidSignalCombination));
    header.signal = SignalBits::request_connection(0);
    write_header(&mut buffer, header);
    assert_eq!(read_header(&buffer), Ok(header));
    header.connection_id = 0;
    header.signal = SignalBits::volatile(0);
    write_header(&mut buffer, header);
    assert_eq!(read_header(&buffer), Err(HeaderError::InvalidSignalCombination));
    assert!(!is_valid(&buffer));
}
