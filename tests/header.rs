use gnet::connection::parcel::header::{ReadError, SliceError};
use gnet::connection::parcel::signal::{Signal, SignalValidationError};
use gnet::connection::parcel::Header;

#[test]
fn write_read_same_header() {
    let written = Header::request_connection(12).with_message(4);

    let mut buffer = [0; 64];
    let written_size = written.write_to(&mut buffer);

    let (read, read_size) = Header::read_from(&buffer).unwrap();
    assert_eq!(written_size, read_size);
    assert_eq!(written, read);
}

#[test]
fn valid_signals() {
    // Simple
    assert_eq!(Signal::request_connection().validate(), Ok(()));
    assert_eq!(Signal::reject_connection().validate(), Ok(()));
    assert_eq!(Signal::accept_connection().validate(), Ok(()));
    assert_eq!(Signal::connected().validate(), Ok(()));

    // 2-element compound
    assert_eq!(Signal::request_connection().with_message().validate(), Ok(()));
    assert_eq!(Signal::reject_connection().with_message().validate(), Ok(()));
    assert_eq!(Signal::accept_connection().indexed().validate(), Ok(()));
    assert_eq!(Signal::accept_connection().with_ack_mask().validate(), Ok(()));
    assert_eq!(Signal::accept_connection().with_message().validate(), Ok(()));
    assert_eq!(Signal::connected().indexed().validate(), Ok(()));
    assert_eq!(Signal::connected().with_ack_mask().validate(), Ok(()));
    assert_eq!(Signal::connected().with_message().validate(), Ok(()));

    // 3-element compound
    assert_eq!(Signal::accept_connection().indexed().with_ack_mask().validate(), Ok(()));
    assert_eq!(Signal::accept_connection().indexed().with_message().validate(), Ok(()));
    assert_eq!(Signal::accept_connection().indexed().with_stream().validate(), Ok(()));
    assert_eq!(Signal::accept_connection().with_ack_mask().with_message().validate(), Ok(()));
    assert_eq!(Signal::connected().indexed().with_ack_mask().validate(), Ok(()));
    assert_eq!(Signal::connected().indexed().with_message().validate(), Ok(()));
    assert_eq!(Signal::connected().indexed().with_stream().validate(), Ok(()));
    assert_eq!(Signal::connected().with_ack_mask().with_message().validate(), Ok(()));

    // 4-element compound
    assert_eq!(
        Signal::accept_connection().indexed().with_ack_mask().with_message()
            .validate(),
        Ok(())
    );
    assert_eq!(
        Signal::accept_connection().indexed().with_ack_mask().with_stream()
            .validate(),
        Ok(())
    );
    assert_eq!(
        Signal::accept_connection().indexed().with_message().with_stream()
            .validate(),
        Ok(())
    );
    assert_eq!(
        Signal::connected().indexed().with_ack_mask().with_message()
            .validate(),
        Ok(())
    );
    assert_eq!(
        Signal::connected().indexed().with_ack_mask().with_stream()
            .validate(),
        Ok(())
    );
    assert_eq!(
        Signal::connected().indexed().with_message().with_stream()
            .validate(),
        Ok(())
    );

    // 5-element compound
    assert_eq!(
        Signal::accept_connection().indexed().with_ack_mask().with_message().with_stream()
            .validate(),
        Ok(())
    );
    assert_eq!(
        Signal::connected().indexed().with_ack_mask().with_message().with_stream()
            .validate(),
        Ok(())
    );
}

#[test]
fn invalid_signals_name_their_fault() {
    assert_eq!(Signal::from(0x08).validate(), Err(SignalValidationError::DisconnectedIndex));
    assert_eq!(Signal::from(0x10 | 0x80).validate(), Err(SignalValidationError::DisconnectedAcknowledge));
    assert_eq!(Signal::from(0x40).validate(), Err(SignalValidationError::DisconnectedStream));
    assert_eq!(Signal::from(0x41 | 0x80).validate(), Err(SignalValidationError::UnreliableStream));
    assert_eq!(Signal::from(0x00).validate(), Err(SignalValidationError::InvalidParity));
    assert!(!Signal::from(0x00).is_valid());
    assert!(Signal::request_connection().is_connection_request());
    assert!(Signal::accept_connection().is_accept());
    let bits: u8 = Signal::connected().with_message().into();
    assert_eq!(bits, 0x21 | 0x80);
}

#[test]
fn header_layout_follows_signal() {
    let header = Header::accept_connection(0x0A0B_0C0D, 0x0102);
    assert_eq!(header.size(), 7);
    let mut buffer = [0xFF; 10];
    assert_eq!(header.write_to(&mut buffer), 7);
    assert_eq!(buffer, [0x83, 0x02, 0x01, 0x0D, 0x0C, 0x0B, 0x0A, 0xFF, 0xFF, 0xFF]);
    assert_eq!(header.connection_id(), Some(0x0102));
    assert_eq!(header.handshake_id(), Some(0x0A0B_0C0D));
    assert_eq!(header.message_size(), None);
    assert_eq!(Header::read_from(&buffer), Ok((header, 7)));
    assert_eq!(Header::read_from(&buffer[..5]), Err(ReadError::InsufficientBufferLen));
    assert_eq!(Header::read_from(&[]), Err(ReadError::InsufficientBufferLen));
    assert_eq!(Header::read_from(&[0x00, 0, 0, 0, 0]), Err(ReadError::InvalidSignal));
}

#[test]
fn message_slices() {
    let message = b"Please?";
    let header = Header::request_connection(42).with_message(message.len() as u16);
    let mut buffer = [0u8; 32];
    let size = header.write_to(&mut buffer);
    assert_eq!(header.message_offset(), Some(size));
    header.write_message(&mut buffer, message).unwrap();
    assert_eq!(header.message_slice(&buffer).unwrap(), message);
    assert_eq!(header.message_slice(&buffer[..10]), Err(SliceError::OutOfBounds));
    assert_eq!(header.stream_slice(&buffer), Err(SliceError::ElementDoesNotExist));
    assert_eq!(Header::request_connection(1).message_slice(&buffer), Err(SliceError::ElementDoesNotExist));
    let (read, _) = Header::read_from(&buffer).unwrap();
    assert!(read.signal().is_connection_request());
    assert_eq!(read.message_slice(&buffer).unwrap(), message);
}

#[test]
fn stream_slices() {
    let header = Header {
        signal: Signal::accept_connection().indexed().with_stream(),
        stream_size: 3,
        ..Header::accept_connection(1, 2)
    };
    let mut buffer = [0u8; 32];
    let size = header.write_to(&mut buffer);
    assert_eq!(header.stream_offset(), Some(size));
    header.write_stream(&mut buffer, b"abc").unwrap();
    assert_eq!(header.stream_slice(&buffer).unwrap(), b"abc");
    assert_eq!(header.write_stream(&mut buffer, b"ab"), Err(SliceError::OutOfBounds));
    assert_eq!(Header::request_connection(1).write_stream(&mut buffer, b"abc"), Err(SliceError::ElementDoesNotExist));
}
