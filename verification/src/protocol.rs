//! XRCE-DDS wire protocol constants (eProsima Micro-XRCE-DDS-Client values)
//! and the ObjectId / RequestId packing helpers.

use vstd::prelude::*;
use crate::wire::{be16, be16_bytes};

verus! {

// ── Submessage IDs ───────────────────────────────────────────────────────────

pub const SUBMSG_CREATE_CLIENT: u8 = 0;
pub const SUBMSG_CREATE: u8 = 1;
pub const SUBMSG_GET_INFO: u8 = 2;
pub const SUBMSG_DELETE: u8 = 3;
pub const SUBMSG_STATUS_AGENT: u8 = 4;
pub const SUBMSG_STATUS: u8 = 5;
pub const SUBMSG_INFO: u8 = 6;
pub const SUBMSG_WRITE_DATA: u8 = 7;
pub const SUBMSG_READ_DATA: u8 = 8;
pub const SUBMSG_DATA: u8 = 9;
pub const SUBMSG_ACKNACK: u8 = 10;
pub const SUBMSG_HEARTBEAT: u8 = 11;
pub const SUBMSG_RESET: u8 = 12;
pub const SUBMSG_FRAGMENT: u8 = 13;

// ── Submessage flags ─────────────────────────────────────────────────────────

/// Little-endian payload.
pub const FLAG_LE: u8 = 0x01;
pub const FLAG_LAST_FRAGMENT: u8 = 0x02;
/// CreationMode "reuse" bit (overlaps LAST_FRAGMENT, context-dependent).
pub const FLAG_REUSE: u8 = 0x02;
pub const FLAG_REPLACE: u8 = 0x04;
/// Idempotent CREATE: reuse if exists, replace if mismatched
/// (`FLAG_LE | FLAG_REUSE | FLAG_REPLACE`).
pub const FLAGS_CREATE: u8 = 0x07;
/// FORMAT_DATA — the WRITE_DATA / READ_DATA format before OR-ing endianness.
pub const FORMAT_DATA: u8 = 0x00;

// ── Session / stream IDs ─────────────────────────────────────────────────────

/// session_id values below this carry a 4-byte client_key in the message
/// header; values at or above it do not.
pub const SESSION_ID_WITHOUT_CLIENT_KEY: u8 = 0x80;

pub const STREAM_NONE: u8 = 0x00;
/// First best-effort stream (range 0x01–0x7F).
pub const STREAM_BEST_EFFORT: u8 = 0x01;
/// First reliable stream (range 0x80–0xFF).
pub const STREAM_RELIABLE: u8 = 0x80;

// ── Object kinds ─────────────────────────────────────────────────────────────

pub const ENTITY_INVALID: u8 = 0x00;
pub const ENTITY_PARTICIPANT: u8 = 0x01;
pub const ENTITY_TOPIC: u8 = 0x02;
pub const ENTITY_PUBLISHER: u8 = 0x03;
pub const ENTITY_SUBSCRIBER: u8 = 0x04;
pub const ENTITY_DATAWRITER: u8 = 0x05;
pub const ENTITY_DATAREADER: u8 = 0x06;
pub const ENTITY_REQUESTER: u8 = 0x07;
pub const ENTITY_REPLIER: u8 = 0x08;
pub const ENTITY_OTHER: u8 = 0x0F;

// ── Representation format ────────────────────────────────────────────────────

pub const REPR_BY_REFERENCE: u8 = 0x01;
pub const REPR_AS_XML: u8 = 0x02;
pub const REPR_IN_BINARY: u8 = 0x03;

// ── Result codes ─────────────────────────────────────────────────────────────

pub const STATUS_OK: u8 = 0x00;
pub const STATUS_OK_MATCHED: u8 = 0x01;
pub const STATUS_ERR_DDS_ERROR: u8 = 0x80;
pub const STATUS_ERR_MISMATCH: u8 = 0x81;
pub const STATUS_ERR_ALREADY_EXISTS: u8 = 0x82;
pub const STATUS_ERR_DENIED: u8 = 0x83;
pub const STATUS_ERR_UNKNOWN_REFERENCE: u8 = 0x84;
pub const STATUS_ERR_INVALID_DATA: u8 = 0x85;
pub const STATUS_ERR_INCOMPATIBLE: u8 = 0x86;
pub const STATUS_ERR_RESOURCES: u8 = 0x87;

// ── XRCE magic identifiers ───────────────────────────────────────────────────

/// "XRCE"
pub const XRCE_COOKIE: [u8; 4] = [0x58, 0x52, 0x43, 0x45];
/// major=1, minor=0
pub const XRCE_VERSION: [u8; 2] = [0x01, 0x00];
pub const VENDOR_ID_EPROSIMA: [u8; 2] = [0x01, 0x0F];

// ── ObjectId / RequestId helpers ─────────────────────────────────────────────

/// The packed 16-bit ObjectId: `idx` in the upper 12 bits (its top four bits
/// are shifted out) and the low nibble of `kind` in the lower 4 bits.
pub open spec fn spec_object_id(idx: u16, kind: u8) -> u16 {
    (idx << 4u16) | ((kind as u16) & 0x0Fu16)
}

/// Pack an ObjectId into the 16-bit form `(idx << 4) | kind` that the agent
/// expects. Written on the wire as big-endian 2 bytes (see
/// [`object_id_be_bytes`]).
pub fn object_id(idx: u16, kind: u8) -> (r: u16)
    ensures
        r == spec_object_id(idx, kind),
{
    (idx << 4) | (kind as u16 & 0x0F)
}

/// Big-endian 2-byte encoding of an ObjectId.
pub fn object_id_be_bytes(packed: u16) -> (r: [u8; 2])
    ensures
        r@ == be16(packed),
{
    be16_bytes(packed)
}

/// Big-endian 2-byte encoding of a RequestId (same convention as ObjectId).
pub fn request_id_be_bytes(req: u16) -> (r: [u8; 2])
    ensures
        r@ == be16(req),
{
    be16_bytes(req)
}

} // verus!
