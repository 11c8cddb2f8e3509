//! Looking ahead in a datagram: where its questions and records stand, and
//! whether the decoder of the `trust-dns-proto` crate can take its records.

use vstd::prelude::*;
use trust_dns_proto::error::ProtoError;
use trust_dns_proto::op::Query;
use trust_dns_proto::rr::Name;
use trust_dns_proto::serialize::binary::{BinDecodable, BinDecoder};

verus! {

/// The length of the header of a DNS message, in bytes.
pub const HEADER_LEN: usize = 12;

/// What stands at the head of a record, before its data.
#[derive(Clone, Copy, Debug, PartialEq, Eq, Structural)]
pub struct RecordHead {
    /// The code of the type of the record.
    pub record_type: u16,
    /// The length that the record gives for its data, in bytes.
    pub data_len: u16,
    /// The place in the datagram where the data of the record starts.
    pub data_start: usize,
}

/// Where the question ends that `Query::read` reads from the place `at` of
/// a datagram, or nothing where it reads none there.
pub uninterp spec fn question_end(data: Seq<u8>, at: nat) -> Option<nat>;

/// The head of the record that stands at the place `at` of a datagram, as
/// `Name::read` and `BinDecoder` read it, or nothing where none can be read
/// there.
pub uninterp spec fn record_head(data: Seq<u8>, at: nat) -> Option<RecordHead>;

/// `Query::read`, on the datagram from the place `at` on: where the question
/// ends that stands there. The end lies between `at` and the end of the
/// datagram.
#[verifier::external_body]
fn question_end_at(data: &[u8], at: usize) -> (end: Result<usize, ProtoError>)
    ensures
        match end {
            Ok(place) => question_end(data@, at as nat) == Some(place as nat) && at <= place
                <= data@.len(),
            Err(_) => question_end(data@, at as nat) is None,
        },
{
    let mut d = BinDecoder::new(data);
    d.read_slice(at)?;
    Query::read(&mut d)?;
    Ok(d.index())
}

/// `Name::read` and `BinDecoder::read_u16` / `read_u32`, on the datagram from
/// the place `at` on: the name of a record is read, then its type, class,
/// time to live and the length of its data. The type and the length come
/// back, with the place that the reading has reached, which lies between
/// `at` and the end of the datagram.
#[verifier::external_body]
fn record_head_at(data: &[u8], at: usize) -> (head: Result<RecordHead, ProtoError>)
    ensures
        match head {
            Ok(found) => record_head(data@, at as nat) == Some(found) && at <= found.data_start
                <= data@.len(),
            Err(_) => record_head(data@, at as nat) is None,
        },
{
    let mut d = BinDecoder::new(data);
    d.read_slice(at)?;
    Name::read(&mut d)?;
    let record_type = d.read_u16()?.unverified();
    d.read_u16()?;
    d.read_u32()?;
    let data_len = d.read_u16()?.unverified();
    Ok(RecordHead { record_type, data_len, data_start: d.index() })
}

/// Whether a record type has a name in the `trust-dns-proto` crate and yet
/// no reader of its own there: the types of zone transfer and of any type,
/// and the types of DNS security.
pub open spec fn is_unread_type(code: u16) -> bool {
    ||| code == 24
    ||| code == 25
    ||| code == 43
    ||| code == 46
    ||| code == 47
    ||| code == 48
    ||| code == 50
    ||| code == 51
    ||| code == 59
    ||| code == 60
    ||| code == 250
    ||| code == 251
    ||| code == 252
    ||| code == 255
}

/// Where `left` questions end that stand one after the other from the place
/// `at` on, or nothing where one of them cannot be read.
pub open spec fn questions_end(data: Seq<u8>, at: nat, left: nat) -> Option<nat>
    decreases left,
{
    if left == 0 {
        Some(at)
    } else {
        match question_end(data, at) {
            Some(place) => questions_end(data, place, (left - 1) as nat),
            None => None,
        }
    }
}

/// Whether none of the `left` records that stand one after the other from
/// the place `at` on holds data of a type without a reader. The look ahead
/// ends, with nothing found, at a record whose head cannot be read or whose
/// data would reach beyond the datagram: there the decoder gives up too.
pub open spec fn records_have_readers(data: Seq<u8>, at: nat, left: nat) -> bool
    decreases left,
{
    if left == 0 {
        true
    } else {
        match record_head(data, at) {
            Some(head) => if head.data_start + head.data_len > data.len() {
                true
            } else if is_unread_type(head.record_type) && head.data_len > 0 {
                false
            } else {
                records_have_readers(
                    data,
                    (head.data_start + head.data_len) as nat,
                    (left - 1) as nat,
                )
            },
            None => true,
        }
    }
}

/// Whether the decoder can take a datagram with so many questions and so
/// many records behind its header: whether no record that the decoder gets
/// to holds data of a type without a reader.
pub open spec fn has_readers(data: Seq<u8>, questions: nat, records: nat) -> bool {
    match questions_end(data, HEADER_LEN as nat, questions) {
        Some(place) => records_have_readers(data, place, records),
        None => true,
    }
}

/// Whether a record type has a name and yet no reader.
fn unread_type(code: u16) -> (unread: bool)
    ensures
        unread == is_unread_type(code),
{
    code == 24 || code == 25 || code == 43 || code == 46 || code == 47 || code == 48 || code == 50
        || code == 51 || code == 59 || code == 60 || code == 250 || code == 251 || code == 252
        || code == 255
}

/// Looks ahead in a datagram with so many questions and so many records
/// behind its header, and says whether the decoder can take it.
pub(crate) fn look_ahead(data: &[u8], questions: u16, records: u32) -> (clear: bool)
    requires
        data@.len() >= HEADER_LEN,
    ensures
        clear == has_readers(data@, questions as nat, records as nat),
{
    let mut at: usize = HEADER_LEN;
    let mut left: u16 = questions;
    while left > 0
        invariant
            at <= data@.len(),
            questions_end(data@, HEADER_LEN as nat, questions as nat) == questions_end(
                data@,
                at as nat,
                left as nat,
            ),
        decreases left,
    {
        match question_end_at(data, at) {
            Ok(place) => {
                at = place;
                left -= 1;
            },
            Err(_) => {
                return true;
            },
        }
    }
    let ghost start = at;
    let mut left: u32 = records;
    while left > 0
        invariant
            at <= data@.len(),
            questions_end(data@, HEADER_LEN as nat, questions as nat) == Some(start as nat),
            records_have_readers(data@, start as nat, records as nat) == records_have_readers(
                data@,
                at as nat,
                left as nat,
            ),
        decreases left,
    {
        match record_head_at(data, at) {
            Ok(head) => {
                if head.data_len as usize > data.len() - head.data_start {
                    return true;
                }
                if unread_type(head.record_type) && head.data_len > 0 {
                    return false;
                }
                at = head.data_start + head.data_len as usize;
                left -= 1;
            },
            Err(_) => {
                return true;
            },
        }
    }
    true
}

} // verus!
