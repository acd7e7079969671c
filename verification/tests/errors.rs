use samn_common::bity;
use samn_common::discriminant::Discriminant;
use samn_common::helper::Error;
use samn_common::node::NodeSerializeError;

#[test]
fn bit_error_discriminants() {
    assert_eq!(bity::Error::BufferOverflow.discriminant(), 0);
    assert_eq!(bity::Error::BufferUnderflow.discriminant(), 1);
    assert_eq!(bity::Error::discriminant_max(), 2);
}

#[test]
fn node_error_discriminants() {
    // Bit errors keep their own ids; the codec's ids start past them.
    assert_eq!(
        NodeSerializeError::BitError(bity::Error::BufferOverflow).discriminant(),
        0
    );
    assert_eq!(
        NodeSerializeError::BitError(bity::Error::BufferUnderflow).discriminant(),
        1
    );
    assert_eq!(NodeSerializeError::InvalidBoardCode.discriminant(), 3);
    assert_eq!(NodeSerializeError::InvalidSensorCode.discriminant(), 4);
    assert_eq!(NodeSerializeError::InvalidActuatorCode.discriminant(), 5);
    assert_eq!(NodeSerializeError::InvalidCommandCode.discriminant(), 6);
    assert_eq!(NodeSerializeError::InvalidResponseCode.discriminant(), 7);
    assert_eq!(NodeSerializeError::InvalidMessageCode.discriminant(), 8);
    assert_eq!(NodeSerializeError::InvalidMessageVersion.discriminant(), 9);
    assert_eq!(NodeSerializeError::discriminant_max(), 20);
}

#[test]
fn transport_error_discriminants_do_not_collide() {
    // The transport's own id stands below 10, codec errors are offset by
    // 10, radio errors by 10 + 20.
    type E = Error<bity::Error>;
    let timed_out: E = Error::SendingTimedOut;
    assert_eq!(timed_out.discriminant(), 2);
    let serialization: E = Error::SerializationError(NodeSerializeError::InvalidBoardCode);
    assert_eq!(serialization.discriminant(), 13);
    let radio: E = Error::RadioError(bity::Error::BufferUnderflow);
    assert_eq!(radio.discriminant(), 31);
    assert_eq!(E::discriminant_max(), 32);
}
