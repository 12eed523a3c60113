//! Subscription dispatch: routing a DATA sample to the slot registered for
//! its DataReader, and decoding it.

use micro_xrce_dds_rs::{
    cdr::CdrWriter,
    cdr_reader::CdrReader,
    subscription::{decode_sample, find_slot},
    Error, Message,
};

/// `std_msgs/Float32`, carried as the bits of its IEEE-754 value.
struct Float32(f32);

impl Message for Float32 {
    const TYPE_NAME: &'static str = "std_msgs::msg::dds_::Float32_";
    const MAX_SERIALIZED_SIZE: usize = 4;

    fn serialize(&self, w: &mut CdrWriter) {
        w.u32_val(self.0.to_bits());
    }

    fn deserialize(r: &mut CdrReader<'_>) -> Result<Self, Error> {
        Ok(Float32(f32::from_bits(r.u32_val()?)))
    }
}

fn float32_cdr(v: f32) -> [u8; 4] {
    let mut body = [0u8; 4];
    let mut w = CdrWriter::new(&mut body);
    Float32(v).serialize(&mut w);
    body
}

#[test]
fn deliver_routes_to_correct_slot() {
    // Slot A registered for DataReader 0x0016, slot B for 0x0026.
    let table = [0x0016u16, 0x0026];
    let payload = float32_cdr(42.0);

    assert_eq!(find_slot(&table, 0x0016), Some(0));
    assert_eq!(decode_sample::<Float32>(&payload).unwrap().0, 42.0f32);
    assert_eq!(find_slot(&table, 0x0036), None);
}

#[test]
fn first_registered_slot_wins() {
    assert_eq!(find_slot(&[0x0016, 0x0026, 0x0016], 0x0016), Some(0));
    assert_eq!(find_slot(&[], 0x0016), None);
}

#[test]
fn short_sample_is_refused() {
    assert_eq!(decode_sample::<Float32>(&[0, 0, 0x80]).err(), Some(Error::Deserialization));
}
