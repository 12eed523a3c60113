//! The XML entity descriptions a node hands to the agent when it creates
//! its participant, topics, DataWriters and DataReaders.
//!
//! Each description is formatted into a fixed-capacity `heapless::String`
//! piece by piece; a piece is written whole when it fits, and the first
//! piece that does not fit ends the description (what fitted so far stays).

use vstd::prelude::*;
use vstd::string::StringSliceAdditionalSpecFns;
use heapless::String as HString;
use crate::bounded::{text128, text128_new, text128_push_str, text256, text256_new, text256_push_str, text320,
    text320_new, text320_push_str};

verus! {

/// What writing `pieces` one after another into a string of capacity `cap`
/// that holds `acc` leaves: each piece is appended whole when it fits, and
/// the first piece that does not fit ends the writing.
pub open spec fn spec_bounded_write(acc: Seq<u8>, pieces: Seq<Seq<u8>>, cap: int) -> Seq<u8>
    decreases pieces.len(),
{
    if pieces.len() == 0 {
        acc
    } else if acc.len() + pieces[0].len() <= cap {
        spec_bounded_write(acc + pieces[0], pieces.drop_first(), cap)
    } else {
        acc
    }
}

/// The bytes of each string.
pub open spec fn spec_piece_bytes(pieces: Seq<&str>) -> Seq<Seq<u8>> {
    pieces.map_values(|p: &str| p.spec_bytes())
}

/// The participant description of the node `name` (capacity 128).
pub open spec fn spec_participant_xml(name: Seq<u8>) -> Seq<u8> {
    spec_bounded_write(Seq::empty(), seq![
        "<dds><participant><rtps><name>".spec_bytes(), name,
        "</name></rtps></participant></dds>".spec_bytes()], 128)
}

/// The description of the DDS topic `dds_topic` of type `dds_type`
/// (capacity 256).
pub open spec fn spec_topic_xml(dds_topic: Seq<u8>, dds_type: Seq<u8>) -> Seq<u8> {
    spec_bounded_write(Seq::empty(), seq![
        "<dds><topic><name>".spec_bytes(), dds_topic, "</name><dataType>".spec_bytes(),
        dds_type, "</dataType></topic></dds>".spec_bytes()], 256)
}

/// The description of a DataWriter on `dds_topic` (capacity 320).
pub open spec fn spec_datawriter_xml(dds_topic: Seq<u8>, dds_type: Seq<u8>) -> Seq<u8> {
    spec_bounded_write(Seq::empty(), seq![
        "<dds><data_writer><topic><kind>NO_KEY</kind><name>".spec_bytes(), dds_topic,
        "</name><dataType>".spec_bytes(), dds_type,
        "</dataType></topic></data_writer></dds>".spec_bytes()], 320)
}

/// The description of a DataReader on `dds_topic` (capacity 320).
pub open spec fn spec_datareader_xml(dds_topic: Seq<u8>, dds_type: Seq<u8>) -> Seq<u8> {
    spec_bounded_write(Seq::empty(), seq![
        "<dds><data_reader><topic><kind>NO_KEY</kind><name>".spec_bytes(), dds_topic,
        "</name><dataType>".spec_bytes(), dds_type,
        "</dataType></topic></data_reader></dds>".spec_bytes()], 320)
}

/// XML of the default Publisher every node creates.
pub const PUBLISHER_XML: &'static str = "<dds><publisher><name>default</name></publisher></dds>";

/// XML of the default Subscriber every node creates.
pub const SUBSCRIBER_XML: &'static str = "<dds><subscriber><name>default</name></subscriber></dds>";

/// Write `pieces` one after another into `s`, stopping at the first that
/// does not fit.
fn write_pieces128(s: &mut HString<128>, pieces: &[&str])
    ensures
        text128(*final(s)) == spec_bounded_write(text128(*old(s)), spec_piece_bytes(pieces@), 128),
{
    let ghost all = spec_piece_bytes(pieces@);
    assert(all.subrange(0, all.len() as int) =~= all);
    let mut i: usize = 0;
    while i < pieces.len()
        invariant
            i <= pieces@.len(),
            all == spec_piece_bytes(pieces@),
            spec_bounded_write(text128(*s), all.subrange(i as int, all.len() as int), 128)
                == spec_bounded_write(text128(*old(s)), all, 128),
        decreases pieces@.len() - i,
    {
        let ghost before = text128(*s);
        let ghost rest = all.subrange(i as int, all.len() as int);
        assert(rest[0] == pieces@[i as int].spec_bytes());
        assert(rest.drop_first() =~= all.subrange(i + 1, all.len() as int));
        if text128_push_str(s, pieces[i]).is_err() {
            return;
        }
        i += 1;
    }
    proof { assert(all.subrange(all.len() as int, all.len() as int) =~= Seq::<Seq<u8>>::empty()); }
}

/// Write `pieces` one after another into `s`, stopping at the first that
/// does not fit.
fn write_pieces256(s: &mut HString<256>, pieces: &[&str])
    ensures
        text256(*final(s)) == spec_bounded_write(text256(*old(s)), spec_piece_bytes(pieces@), 256),
{
    let ghost all = spec_piece_bytes(pieces@);
    assert(all.subrange(0, all.len() as int) =~= all);
    let mut i: usize = 0;
    while i < pieces.len()
        invariant
            i <= pieces@.len(),
            all == spec_piece_bytes(pieces@),
            spec_bounded_write(text256(*s), all.subrange(i as int, all.len() as int), 256)
                == spec_bounded_write(text256(*old(s)), all, 256),
        decreases pieces@.len() - i,
    {
        let ghost before = text256(*s);
        let ghost rest = all.subrange(i as int, all.len() as int);
        assert(rest[0] == pieces@[i as int].spec_bytes());
        assert(rest.drop_first() =~= all.subrange(i + 1, all.len() as int));
        if text256_push_str(s, pieces[i]).is_err() {
            return;
        }
        i += 1;
    }
    proof { assert(all.subrange(all.len() as int, all.len() as int) =~= Seq::<Seq<u8>>::empty()); }
}

/// Write `pieces` one after another into `s`, stopping at the first that
/// does not fit.
fn write_pieces320(s: &mut HString<320>, pieces: &[&str])
    ensures
        text320(*final(s)) == spec_bounded_write(text320(*old(s)), spec_piece_bytes(pieces@), 320),
{
    let ghost all = spec_piece_bytes(pieces@);
    assert(all.subrange(0, all.len() as int) =~= all);
    let mut i: usize = 0;
    while i < pieces.len()
        invariant
            i <= pieces@.len(),
            all == spec_piece_bytes(pieces@),
            spec_bounded_write(text320(*s), all.subrange(i as int, all.len() as int), 320)
                == spec_bounded_write(text320(*old(s)), all, 320),
        decreases pieces@.len() - i,
    {
        let ghost before = text320(*s);
        let ghost rest = all.subrange(i as int, all.len() as int);
        assert(rest[0] == pieces@[i as int].spec_bytes());
        assert(rest.drop_first() =~= all.subrange(i + 1, all.len() as int));
        if text320_push_str(s, pieces[i]).is_err() {
            return;
        }
        i += 1;
    }
    proof { assert(all.subrange(all.len() as int, all.len() as int) =~= Seq::<Seq<u8>>::empty()); }
}

/// Participant XML naming the node `name`.
pub fn participant_xml(name: &str) -> (x: HString<128>)
    ensures
        text128(x) == spec_participant_xml(name.spec_bytes()),
{
    let mut x = text128_new();
    let pieces = ["<dds><participant><rtps><name>", name, "</name></rtps></participant></dds>"];
    write_pieces128(&mut x, &pieces);
    proof {
        assert(spec_piece_bytes(pieces@) =~= seq!["<dds><participant><rtps><name>".spec_bytes(), name.spec_bytes(),
            "</name></rtps></participant></dds>".spec_bytes()]);
    }
    x
}

/// Topic XML for the DDS topic `dds_topic` of type `dds_type`.
pub fn topic_xml(dds_topic: &str, dds_type: &str) -> (x: HString<256>)
    ensures
        text256(x) == spec_topic_xml(dds_topic.spec_bytes(), dds_type.spec_bytes()),
{
    let mut x = text256_new();
    let pieces = ["<dds><topic><name>", dds_topic, "</name><dataType>", dds_type, "</dataType></topic></dds>"];
    write_pieces256(&mut x, &pieces);
    proof {
        assert(spec_piece_bytes(pieces@) =~= seq!["<dds><topic><name>".spec_bytes(), dds_topic.spec_bytes(),
            "</name><dataType>".spec_bytes(), dds_type.spec_bytes(), "</dataType></topic></dds>".spec_bytes()]);
    }
    x
}

/// DataWriter XML for the DDS topic `dds_topic` of type `dds_type`.
pub fn datawriter_xml(dds_topic: &str, dds_type: &str) -> (x: HString<320>)
    ensures
        text320(x) == spec_datawriter_xml(dds_topic.spec_bytes(), dds_type.spec_bytes()),
{
    let mut x = text320_new();
    let pieces = ["<dds><data_writer><topic><kind>NO_KEY</kind><name>", dds_topic, "</name><dataType>", dds_type,
        "</dataType></topic></data_writer></dds>"];
    write_pieces320(&mut x, &pieces);
    proof {
        assert(spec_piece_bytes(pieces@) =~= seq!["<dds><data_writer><topic><kind>NO_KEY</kind><name>".spec_bytes(),
            dds_topic.spec_bytes(), "</name><dataType>".spec_bytes(), dds_type.spec_bytes(),
            "</dataType></topic></data_writer></dds>".spec_bytes()]);
    }
    x
}

/// DataReader XML for the DDS topic `dds_topic` of type `dds_type`.
pub fn datareader_xml(dds_topic: &str, dds_type: &str) -> (x: HString<320>)
    ensures
        text320(x) == spec_datareader_xml(dds_topic.spec_bytes(), dds_type.spec_bytes()),
{
    let mut x = text320_new();
    let pieces = ["<dds><data_reader><topic><kind>NO_KEY</kind><name>", dds_topic, "</name><dataType>", dds_type,
        "</dataType></topic></data_reader></dds>"];
    write_pieces320(&mut x, &pieces);
    proof {
        assert(spec_piece_bytes(pieces@) =~= seq!["<dds><data_reader><topic><kind>NO_KEY</kind><name>".spec_bytes(),
            dds_topic.spec_bytes(), "</name><dataType>".spec_bytes(), dds_type.spec_bytes(),
            "</dataType></topic></data_reader></dds>".spec_bytes()]);
    }
    x
}

} // verus!
