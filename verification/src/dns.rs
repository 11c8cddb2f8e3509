//! DNS messages: what the resolver reads of a query and writes of a
//! response. The wire format is left to the `trust-dns-proto` crate, whose
//! decoder reads the whole of a datagram and refuses it where any part
//! cannot be read. The decoder is only called on datagrams that it can
//! take: one with a record whose type has no reader there is refused
//! before the call.

use vstd::prelude::*;
use trust_dns_proto::error::ProtoError;
use trust_dns_proto::op::{Message, MessageType, OpCode, Query};
use trust_dns_proto::serialize::binary::{BinDecodable, BinDecoder};
use crate::wire::{has_readers, look_ahead, HEADER_LEN};
use crate::blocklist::{Blocklist, BlocklistView};
use crate::stats::{record, Recorded, Stats, StatsView};
use crate::text::{strip_trailing_dots, without_trailing_dots};

verus! {

/// `trust_dns_proto::op::Query`, a question of a message as the crate read
/// it; nothing is known of what is inside.
#[verifier::external_type_specification]
#[verifier::external_body]
pub struct ExQuery(Query);

/// `trust_dns_proto::error::ProtoError`, the reason why reading or writing
/// a message failed; nothing is known of what is inside.
#[verifier::external_type_specification]
#[verifier::external_body]
pub struct ExProtoError(ProtoError);

/// The operation code of a standard query.
pub const OPCODE_QUERY: u8 = 0;

/// The response code that says the queried name does not exist.
pub const NXDOMAIN: u16 = 3;

/// The header of a DNS message as it stands on the wire.
#[derive(Clone, Copy, Debug, PartialEq, Eq, Structural)]
pub struct Header {
    /// The transaction id, by which a client matches a response to its query.
    pub id: u16,
    /// Whether the message is a response rather than a query.
    pub is_response: bool,
    /// The operation code.
    pub op_code: u8,
    /// Whether the responding server is an authority for the name.
    pub authoritative: bool,
    /// Whether the message was cut short.
    pub truncated: bool,
    /// Whether the client asks for recursive resolution.
    pub recursion_desired: bool,
    /// Whether the server offers recursive resolution.
    pub recursion_available: bool,
    /// The response code.
    pub response_code: u16,
    /// The number of questions that the header announces.
    pub question_count: u16,
    /// The number of answer records that the header announces.
    pub answer_count: u16,
    /// The number of authority records that the header announces.
    pub authority_count: u16,
    /// The number of additional records that the header announces.
    pub additional_count: u16,
}

impl Header {
    /// The number of records of all three kinds that the header announces.
    pub open spec fn record_count(self) -> nat {
        (self.answer_count + self.authority_count + self.additional_count) as nat
    }
}

/// A question of a DNS message.
#[derive(Debug)]
pub struct Question {
    /// The queried name as text, with the root separator at its end.
    name: String,
    /// The code of the record type asked for.
    query_type: u16,
    /// The code of the class asked for.
    query_class: u16,
    /// The question as it was read, name, type and class, to be written back.
    query: Query,
}

/// A question as plain values.
pub struct QuestionView {
    /// The queried name as text.
    pub name: Seq<char>,
    /// The code of the record type asked for.
    pub query_type: u16,
    /// The code of the class asked for.
    pub query_class: u16,
    /// The question as it was read.
    pub query: Query,
}

impl View for Question {
    type V = QuestionView;

    closed spec fn view(&self) -> QuestionView {
        QuestionView {
            name: self.name@,
            query_type: self.query_type,
            query_class: self.query_class,
            query: self.query,
        }
    }
}

impl Question {
    /// The queried name as text, with the root separator at its end.
    pub fn name(&self) -> (name: &str)
        ensures
            name@ == self@.name,
    {
        self.name.as_str()
    }

    /// The code of the record type asked for.
    pub fn query_type(&self) -> (code: u16)
        ensures
            code == self@.query_type,
    {
        self.query_type
    }

    /// The code of the class asked for.
    pub fn query_class(&self) -> (code: u16)
        ensures
            code == self@.query_class,
    {
        self.query_class
    }
}

/// The header of a DNS message and its first question.
#[derive(Debug)]
pub struct DnsMessage {
    /// The transaction id, by which a client matches a response to its query.
    pub id: u16,
    /// Whether the message is a response rather than a query.
    pub is_response: bool,
    /// The operation code.
    pub op_code: u8,
    /// Whether the responding server is an authority for the name.
    pub authoritative: bool,
    /// Whether the message was cut short.
    pub truncated: bool,
    /// Whether the client asks for recursive resolution.
    pub recursion_desired: bool,
    /// Whether the server offers recursive resolution.
    pub recursion_available: bool,
    /// The response code.
    pub response_code: u16,
    /// The first question, if the message has one.
    pub question: Option<Question>,
}

/// A message as plain values.
pub struct DnsMessageView {
    pub id: u16,
    pub is_response: bool,
    pub op_code: u8,
    pub authoritative: bool,
    pub truncated: bool,
    pub recursion_desired: bool,
    pub recursion_available: bool,
    pub response_code: u16,
    pub question: Option<QuestionView>,
}

impl View for DnsMessage {
    type V = DnsMessageView;

    open spec fn view(&self) -> DnsMessageView {
        DnsMessageView {
            id: self.id,
            is_response: self.is_response,
            op_code: self.op_code,
            authoritative: self.authoritative,
            truncated: self.truncated,
            recursion_desired: self.recursion_desired,
            recursion_available: self.recursion_available,
            response_code: self.response_code,
            question: match self.question {
                Some(question) => Some(question@),
                None => None,
            },
        }
    }
}

impl DnsMessageView {
    /// Whether the message is a standard query: a query, not a response, with
    /// the operation code of a query.
    pub open spec fn is_standard_query(self) -> bool {
        !self.is_response && self.op_code == OPCODE_QUERY
    }

    /// The domain that the first question asks for: its name without the root
    /// separator at the end.
    pub open spec fn domain(self) -> Option<Seq<char>> {
        match self.question {
            Some(question) => Some(without_trailing_dots(question.name)),
            None => None,
        }
    }

    /// The negative response to a query: a response with the id, the
    /// operation code, the recursion-desired flag and the question of the
    /// query, which offers recursion, claims no authority, is not truncated
    /// and says that the name does not exist.
    pub open spec fn nxdomain_response(self) -> DnsMessageView {
        DnsMessageView {
            id: self.id,
            is_response: true,
            op_code: OPCODE_QUERY,
            authoritative: false,
            truncated: false,
            recursion_desired: self.recursion_desired,
            recursion_available: true,
            response_code: NXDOMAIN,
            question: self.question,
        }
    }
}

/// Why a query got no answer.
#[derive(Clone, Copy, Debug, PartialEq, Eq, Structural)]
pub enum QueryError {
    /// The bytes received are no DNS message.
    Malformed,
    /// The response could not be written in wire format.
    Unencodable,
    /// The query cannot be counted: the counter of all queries is at the
    /// largest number it can hold.
    CountersFull,
    /// The datagram holds a record with data of a type for which the
    /// decoder has no reader; it is not decoded.
    Unsupported,
}

/// The header that `Header::read` reads at the start of a datagram, or
/// nothing where it reads none.
pub uninterp spec fn decoded_header(data: Seq<u8>) -> Option<Header>;

/// What `Message::from_vec` makes of a datagram: nothing where it refuses
/// the datagram, else the first question of the message, if it has one.
pub uninterp spec fn decoded_question(data: Seq<u8>) -> Option<Option<QuestionView>>;

/// The message with the fields of a header and the given question.
pub open spec fn message_of(header: Header, question: Option<QuestionView>) -> DnsMessageView {
    DnsMessageView {
        id: header.id,
        is_response: header.is_response,
        op_code: header.op_code,
        authoritative: header.authoritative,
        truncated: header.truncated,
        recursion_desired: header.recursion_desired,
        recursion_available: header.recursion_available,
        response_code: header.response_code,
        question,
    }
}

/// What is read of a datagram. It is malformed where it is shorter than a
/// header or does not start with one. It is unsupported where a record that
/// the decoder would get to holds data of a type without a reader. Else it
/// is what the decoder makes of the whole datagram: malformed where the
/// decoder refuses it, because a question or a record that the header
/// announces cannot be read, or otherwise the message with the fields of
/// the header and the first question.
pub open spec fn decoded(data: Seq<u8>) -> Result<DnsMessageView, QueryError> {
    if data.len() < HEADER_LEN {
        Err(QueryError::Malformed)
    } else {
        match decoded_header(data) {
            Some(header) => if !has_readers(
                data,
                header.question_count as nat,
                header.record_count(),
            ) {
                Err(QueryError::Unsupported)
            } else {
                match decoded_question(data) {
                    Some(question) => Ok(message_of(header, question)),
                    None => Err(QueryError::Malformed),
                }
            },
            None => Err(QueryError::Malformed),
        }
    }
}

/// The bytes that `Message::to_vec` writes for a message with this header
/// and this question and no other records, or nothing where it fails.
pub uninterp spec fn encoded(message: DnsMessageView) -> Option<Seq<u8>>;

/// `Header::read`: the header at the start of the datagram, with its
/// fields as numbers and flags.
#[verifier::external_body]
fn read_header(data: &[u8]) -> (read: Result<Header, ProtoError>)
    ensures
        match read {
            Ok(header) => decoded_header(data@) == Some(header),
            Err(_) => decoded_header(data@) is None,
        },
{
    let mut d = BinDecoder::new(data);
    let h = trust_dns_proto::op::Header::read(&mut d)?;
    Ok(Header {
        id: h.id(), is_response: matches!(h.message_type(), MessageType::Response),
        op_code: h.op_code().into(), authoritative: h.authoritative(),
        truncated: h.truncated(), recursion_desired: h.recursion_desired(),
        recursion_available: h.recursion_available(),
        response_code: h.response_code().into(), question_count: h.query_count(),
        answer_count: h.answer_count(), authority_count: h.name_server_count(),
        additional_count: h.additional_count(),
    })
}

/// `Message::from_vec`: decodes the whole datagram, and gives the first
/// question of the message, with its name as `Name` prints it, or the
/// reason why the datagram was refused. The decoder has one check that
/// does not return: it is reached only with a record that holds data of a
/// type without a reader, and `requires` leaves such datagrams out. The
/// records are looked for where the decoder looks for them: behind the
/// twelve bytes of the header and the questions it announces.
#[verifier::external_body]
fn read_message(data: &[u8]) -> (read: Result<Option<Question>, ProtoError>)
    requires
        data@.len() >= HEADER_LEN,
        decoded_header(data@) matches Some(header) && has_readers(
            data@,
            header.question_count as nat,
            header.record_count(),
        ),
    ensures
        match read {
            Ok(Some(first)) => decoded_question(data@) == Some(Some(first@)),
            Ok(None) => decoded_question(data@) == Some(None::<QuestionView>),
            Err(_) => decoded_question(data@) is None,
        },
{
    let m = Message::from_vec(data)?;
    Ok(m.queries().first().map(|q| Question {
        name: q.name().to_string(), query_type: q.query_type().into(),
        query_class: q.query_class().into(), query: q.clone(),
    }))
}

/// `Message::to_vec`: writes in wire format a message with the given header
/// fields and question and no other records.
#[verifier::external_body]
fn write_message(message: &DnsMessage) -> (written: Result<Vec<u8>, ProtoError>)
    ensures
        match written {
            Ok(bytes) => encoded(message@) == Some(bytes@),
            Err(_) => encoded(message@) is None,
        },
{
    let kind = if message.is_response { MessageType::Response } else { MessageType::Query };
    let mut m = Message::new();
    m.set_id(message.id)
        .set_message_type(kind)
        .set_op_code(OpCode::from_u8(message.op_code)?)
        .set_authoritative(message.authoritative)
        .set_truncated(message.truncated)
        .set_recursion_desired(message.recursion_desired)
        .set_recursion_available(message.recursion_available)
        .set_response_code(message.response_code.into())
        .add_queries(message.question.iter().map(|q| q.query.clone()));
    m.to_vec()
}

impl DnsMessage {
    /// Reads a message from the bytes of a datagram. The whole datagram is
    /// decoded, and it is refused as malformed where any part of it that
    /// the header announces cannot be read. A datagram with a record whose
    /// data the decoder has no reader for is refused as unsupported.
    pub fn decode(data: &[u8]) -> (read: Result<DnsMessage, QueryError>)
        ensures
            match read {
                Ok(message) => decoded(data@) == Ok::<DnsMessageView, QueryError>(message@),
                Err(error) => decoded(data@) == Err::<DnsMessageView, QueryError>(error),
            },
    {
        if data.len() < HEADER_LEN {
            return Err(QueryError::Malformed);
        }
        let header = match read_header(data) {
            Ok(header) => header,
            Err(_) => {
                return Err(QueryError::Malformed);
            },
        };
        let records: u32 = header.answer_count as u32 + header.authority_count as u32
            + header.additional_count as u32;
        if !look_ahead(data, header.question_count, records) {
            return Err(QueryError::Unsupported);
        }
        match read_message(data) {
            Ok(question) => Ok(Self::assemble(header, question)),
            Err(_) => Err(QueryError::Malformed),
        }
    }

    /// The message with the fields of a header and the given question.
    pub fn assemble(header: Header, question: Option<Question>) -> (message: DnsMessage)
        ensures
            message@ == message_of(
                header,
                match question {
                    Some(first) => Some(first@),
                    None => None,
                },
            ),
    {
        DnsMessage {
            id: header.id,
            is_response: header.is_response,
            op_code: header.op_code,
            authoritative: header.authoritative,
            truncated: header.truncated,
            recursion_desired: header.recursion_desired,
            recursion_available: header.recursion_available,
            response_code: header.response_code,
            question,
        }
    }

    /// Writes the message in wire format.
    pub fn encode(&self) -> (written: Result<Vec<u8>, QueryError>)
        ensures
            match written {
                Ok(bytes) => encoded(self@) == Some(bytes@),
                Err(error) => error == QueryError::Unencodable && encoded(self@) is None,
            },
    {
        match write_message(self) {
            Ok(bytes) => Ok(bytes),
            Err(_) => Err(QueryError::Unencodable),
        }
    }

    /// Whether the message is a standard query.
    pub fn is_standard_query(&self) -> (standard: bool)
        ensures
            standard == self@.is_standard_query(),
    {
        !self.is_response && self.op_code == OPCODE_QUERY
    }

    /// The domain that the first question asks for, without the root
    /// separator at its end.
    pub fn domain(&self) -> (domain: Option<String>)
        ensures
            match domain {
                Some(name) => self@.domain() == Some(name@),
                None => self@.domain() is None,
            },
    {
        match &self.question {
            Some(question) => Some(strip_trailing_dots(question.name.as_str())),
            None => None,
        }
    }
}

/// Makes the negative response to a query: it keeps the transaction id, the
/// recursion-desired flag and the question of the query, and says that the
/// name does not exist.
pub fn create_nxdomain_response(request: DnsMessage) -> (response: DnsMessage)
    ensures
        response@ == request@.nxdomain_response(),
{
    DnsMessage {
        id: request.id,
        is_response: true,
        op_code: OPCODE_QUERY,
        authoritative: false,
        truncated: false,
        recursion_desired: request.recursion_desired,
        recursion_available: true,
        response_code: NXDOMAIN,
        question: request.question,
    }
}

/// What is to be done about a datagram once it has been looked at.
#[derive(Debug)]
pub enum Action {
    /// Nothing is sent: the message is no standard query, or asks nothing.
    Ignore,
    /// These bytes, a negative response, go back to the sender.
    Respond(Vec<u8>),
    /// The datagram goes to the upstream resolver as it is, and the answer
    /// of the resolver goes back to the sender as it is.
    Forward,
}

/// What follows from a message that was read: the counters afterwards, and
/// the action or the error. A message that is no standard query or has no
/// question is ignored and not counted. Any other is refused, and nothing
/// is counted, where the counter of all queries is full. Otherwise it is
/// counted as blocked or allowed by the decision for its domain; a blocked
/// one is answered with the negative response in wire format, an allowed
/// one is forwarded.
pub open spec fn answers(
    request: DnsMessageView,
    list: BlocklistView,
    before: StatsView,
    after: StatsView,
    outcome: Result<Action, QueryError>,
) -> bool {
    if !request.is_standard_query() || request.question is None {
        after == before && outcome matches Ok(Action::Ignore)
    } else if before.total >= u64::MAX {
        after == before && outcome == Err::<Action, QueryError>(QueryError::CountersFull)
    } else if list.blocks(request.domain()->Some_0) {
        &&& after == before.record_blocked(request.domain()->Some_0)
        &&& match encoded(request.nxdomain_response()) {
            Some(bytes) => outcome matches Ok(Action::Respond(sent)) && sent@ == bytes,
            None => outcome == Err::<Action, QueryError>(QueryError::Unencodable),
        }
    } else {
        after == before.record_allowed() && outcome matches Ok(Action::Forward)
    }
}

/// A datagram shorter than a header is malformed, whatever it holds.
pub proof fn short_datagram_is_malformed(data: Seq<u8>)
    requires
        data.len() < HEADER_LEN,
    ensures
        decoded(data) == Err::<DnsMessageView, QueryError>(QueryError::Malformed),
{
}

/// The negative response to a query has the transaction id of the query,
/// says that the name does not exist, and asks back the question of the
/// query as it was asked.
pub proof fn negative_response_echoes(request: DnsMessageView)
    ensures
        request.nxdomain_response().is_response,
        request.nxdomain_response().id == request.id,
        request.nxdomain_response().response_code == NXDOMAIN,
        request.nxdomain_response().question == request.question,
        request.nxdomain_response().recursion_desired == request.recursion_desired,
        request.nxdomain_response().recursion_available,
        !request.nxdomain_response().authoritative,
        !request.nxdomain_response().truncated,
{
}

/// A standard query for a blocked domain is counted as blocked, while the
/// counters have room, and what is sent back, if anything, is the negative
/// response to it in wire format.
pub proof fn blocked_query_is_answered(
    request: DnsMessageView,
    list: BlocklistView,
    before: StatsView,
    after: StatsView,
    outcome: Result<Action, QueryError>,
)
    requires
        answers(request, list, before, after, outcome),
        request.is_standard_query(),
        request.question is Some,
        list.blocks(request.domain()->Some_0),
        before.total < u64::MAX,
    ensures
        after == before.record_blocked(request.domain()->Some_0),
        match outcome {
            Ok(action) => action matches Action::Respond(sent) && encoded(
                request.nxdomain_response(),
            ) == Some(sent@),
            Err(error) => error == QueryError::Unencodable,
        },
{
}

/// A standard query for a domain that is not blocked is counted as allowed,
/// while the counters have room, and is forwarded: nothing is answered in
/// the resolver's own name.
pub proof fn allowed_query_is_forwarded(
    request: DnsMessageView,
    list: BlocklistView,
    before: StatsView,
    after: StatsView,
    outcome: Result<Action, QueryError>,
)
    requires
        answers(request, list, before, after, outcome),
        request.is_standard_query(),
        request.question is Some,
        !list.blocks(request.domain()->Some_0),
        before.total < u64::MAX,
    ensures
        after == before.record_allowed(),
        outcome matches Ok(Action::Forward),
{
}

/// What the statistics record of a message: nothing of one that is no
/// standard query or asks nothing, and of any other that it was blocked,
/// with its domain, or that it was allowed.
pub open spec fn counted_as(request: DnsMessageView, list: BlocklistView) -> Option<Recorded> {
    if !request.is_standard_query() || request.question is None {
        None
    } else if list.blocks(request.domain()->Some_0) {
        Some(Recorded::Blocked(request.domain()->Some_0))
    } else {
        Some(Recorded::Allowed)
    }
}

/// While the counters have room, handling a message records exactly what is
/// to be recorded of it, once. So the counters after a run of messages,
/// handled one at a time in whatever order, are those of the run of what
/// was recorded, as the laws of the statistics give them.
pub proof fn handling_records_the_outcome(
    request: DnsMessageView,
    list: BlocklistView,
    before: StatsView,
    after: StatsView,
    outcome: Result<Action, QueryError>,
)
    requires
        answers(request, list, before, after, outcome),
        before.total < u64::MAX,
    ensures
        after == match counted_as(request, list) {
            Some(query) => record(before, query),
            None => before,
        },
        counted_as(request, list) is Some <==> after.total == before.total + 1,
        counted_as(request, list) is None <==> outcome matches Ok(Action::Ignore),
{
}

/// Whatever is made of a message, the counters afterwards are those before
/// or those after recording one query: every counted message is counted
/// once, as blocked or as allowed, and no other is counted.
pub proof fn message_counts_at_most_once(
    request: DnsMessageView,
    list: BlocklistView,
    before: StatsView,
    after: StatsView,
    outcome: Result<Action, QueryError>,
)
    requires
        answers(request, list, before, after, outcome),
    ensures
        after == before || after == before.record_allowed() || after == before.record_blocked(
            request.domain()->Some_0,
        ),
        outcome matches Ok(Action::Respond(_)) ==> after == before.record_blocked(
            request.domain()->Some_0,
        ),
        outcome matches Ok(Action::Forward) ==> after == before.record_allowed(),
        outcome matches Ok(Action::Ignore) ==> after == before,
        outcome matches Err(QueryError::CountersFull) ==> after == before,
{
}

/// Handles a message that was read from a datagram: decides, records the
/// decision in the statistics, and says what is to be sent.
pub fn respond(request: DnsMessage, blocklist: &Blocklist, stats: &mut Stats) -> (outcome: Result<
    Action,
    QueryError,
>)
    requires
        old(stats).wf(),
    ensures
        final(stats).wf(),
        answers(request@, blocklist@, old(stats)@, final(stats)@, outcome),
        final(stats)@ == old(stats)@ ==> *final(stats) == *old(stats),
{
    if !request.is_standard_query() {
        return Ok(Action::Ignore);
    }
    let domain = match request.domain() {
        Some(domain) => domain,
        None => {
            return Ok(Action::Ignore);
        },
    };
    if stats.total_queries == u64::MAX {
        return Err(QueryError::CountersFull);
    }
    if blocklist.is_blocked(domain.as_str()) {
        stats.record_blocked(domain.as_str());
        let response = create_nxdomain_response(request);
        match response.encode() {
            Ok(bytes) => Ok(Action::Respond(bytes)),
            Err(error) => Err(error),
        }
    } else {
        stats.record_allowed();
        Ok(Action::Forward)
    }
}

/// Handles one datagram. Bytes that are no DNS message are refused as
/// malformed, and a datagram that cannot be decoded as unsupported, with
/// the statistics untouched; a message is handled as `respond` says.
/// Whatever the bytes are, the call returns.
pub fn handle_dns_query(data: &[u8], blocklist: &Blocklist, stats: &mut Stats) -> (outcome: Result<
    Action,
    QueryError,
>)
    requires
        old(stats).wf(),
    ensures
        final(stats).wf(),
        final(stats)@ == old(stats)@ ==> *final(stats) == *old(stats),
        match decoded(data@) {
            Ok(request) => answers(request, blocklist@, old(stats)@, final(stats)@, outcome),
            Err(error) => *final(stats) == *old(stats) && outcome == Err::<Action, QueryError>(
                error,
            ),
        },
        data@.len() < HEADER_LEN ==> outcome == Err::<Action, QueryError>(QueryError::Malformed),
{
    match DnsMessage::decode(data) {
        Ok(request) => respond(request, blocklist, stats),
        Err(error) => Err(error),
    }
}

} // verus!
