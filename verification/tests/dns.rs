use rustyhole::blocklist::Blocklist;
use rustyhole::dns::{
    create_nxdomain_response, handle_dns_query, respond, Action, DnsMessage, Header, QueryError,
    NXDOMAIN, OPCODE_QUERY,
};
use rustyhole::stats::DomainCount;
use rustyhole::stats::Stats;
use rustyhole::text::strip_trailing_dots;
use trust_dns_proto::op::{Message, MessageType, OpCode, Query, ResponseCode};
use trust_dns_proto::rr::{DNSClass, Name, RecordType};

fn blocklist() -> Blocklist {
    let sources: Vec<Result<String, String>> =
        vec![Ok("0.0.0.0 ads.example.com\n0.0.0.0 tracker.example.org\n".to_string())];
    Blocklist::new(sources).unwrap()
}

fn question(name: &str, record_type: RecordType) -> Query {
    Query::query(Name::from_ascii(name).unwrap(), record_type)
}

fn query_bytes(id: u16, recursion_desired: bool, question: Query) -> Vec<u8> {
    let mut message = Message::new();
    message.set_id(id);
    message.set_message_type(MessageType::Query);
    message.set_op_code(OpCode::Query);
    message.set_recursion_desired(recursion_desired);
    message.add_query(question);
    message.to_vec().unwrap()
}

#[test]
fn blocked_query_gets_the_negative_response() {
    let list = blocklist();
    let mut stats = Stats::new();
    let asked = question("ads.example.com.", RecordType::A);
    let data = query_bytes(0x1234, true, asked.clone());
    let sent = match handle_dns_query(&data, &list, &mut stats) {
        Ok(Action::Respond(bytes)) => bytes,
        other => panic!("expected a response, got {:?}", other),
    };
    let response = Message::from_vec(&sent).unwrap();
    assert_eq!(response.id(), 0x1234);
    assert_eq!(response.message_type(), MessageType::Response);
    assert_eq!(response.op_code(), OpCode::Query);
    assert_eq!(response.response_code(), ResponseCode::NXDomain);
    assert!(response.recursion_desired());
    assert!(response.recursion_available());
    assert!(!response.authoritative());
    assert!(!response.truncated());
    assert_eq!(response.queries().len(), 1);
    assert_eq!(response.queries()[0], asked);
    assert!(response.answers().is_empty());
    assert_eq!(stats.total_queries, 1);
    assert_eq!(stats.blocked_queries, 1);
    assert_eq!(stats.allowed_queries, 0);
    assert_eq!(stats.blocked_count("ads.example.com"), 1);
}

#[test]
fn response_echoes_type_class_and_flag() {
    let list = blocklist();
    let mut stats = Stats::new();
    let mut asked = question("tracker.example.org.", RecordType::AAAA);
    asked.set_query_class(DNSClass::CH);
    let data = query_bytes(7, false, asked.clone());
    let sent = match handle_dns_query(&data, &list, &mut stats) {
        Ok(Action::Respond(bytes)) => bytes,
        other => panic!("expected a response, got {:?}", other),
    };
    let response = Message::from_vec(&sent).unwrap();
    assert_eq!(response.id(), 7);
    assert!(!response.recursion_desired());
    assert!(response.recursion_available());
    assert_eq!(response.response_code(), ResponseCode::NXDomain);
    assert_eq!(response.queries()[0].query_type(), RecordType::AAAA);
    assert_eq!(response.queries()[0].query_class(), DNSClass::CH);
    assert_eq!(response.queries()[0], asked);
}

#[test]
fn blocked_query_in_capitals_is_echoed_as_asked() {
    let list = blocklist();
    let mut stats = Stats::new();
    let asked = question("ADS.Example.COM.", RecordType::A);
    let data = query_bytes(99, true, asked.clone());
    let sent = match handle_dns_query(&data, &list, &mut stats) {
        Ok(Action::Respond(bytes)) => bytes,
        other => panic!("expected a response, got {:?}", other),
    };
    let response = Message::from_vec(&sent).unwrap();
    assert_eq!(response.queries()[0].name().to_ascii(), "ADS.Example.COM.");
    assert_eq!(stats.top_blocked_domains.len(), 1);
    assert_eq!(stats.top_blocked_domains[0].domain, "ads.example.com");
    assert_eq!(stats.top_blocked_domains[0].count, 1);
}

#[test]
fn allowed_query_is_forwarded() {
    let list = blocklist();
    let mut stats = Stats::new();
    let data = query_bytes(5, true, question("www.example.com.", RecordType::A));
    match handle_dns_query(&data, &list, &mut stats) {
        Ok(Action::Forward) => {}
        other => panic!("expected forwarding, got {:?}", other),
    }
    assert_eq!(stats.total_queries, 1);
    assert_eq!(stats.blocked_queries, 0);
    assert_eq!(stats.allowed_queries, 1);
    assert!(stats.top_blocked_domains.is_empty());
}

#[test]
fn whitelisted_query_is_forwarded() {
    let mut list = blocklist();
    list.add_to_whitelist("ads.example.com".to_string());
    let mut stats = Stats::new();
    let data = query_bytes(5, true, question("ads.example.com.", RecordType::A));
    assert!(matches!(handle_dns_query(&data, &list, &mut stats), Ok(Action::Forward)));
    assert_eq!(stats.allowed_queries, 1);
    assert_eq!(stats.blocked_queries, 0);
}

#[test]
fn malformed_input_is_refused_and_not_counted() {
    let list = blocklist();
    let mut stats = Stats::new();
    stats.record_allowed();
    let inputs: Vec<Vec<u8>> = vec![
        vec![],
        vec![0x12],
        vec![1, 2, 3],
        vec![0xff; 11],
        vec![0x12, 0x34, 0x01, 0x00, 0x00, 0x01, 0x00, 0x00, 0x00, 0x00, 0x00, 0x00, 0x05, b'a'],
    ];
    for data in inputs {
        match handle_dns_query(&data, &list, &mut stats) {
            Err(QueryError::Malformed) => {}
            other => panic!("expected a refusal of {:?}, got {:?}", data, other),
        }
    }
    assert_eq!(stats.total_queries, 1);
    assert_eq!(stats.allowed_queries, 1);
    assert_eq!(stats.blocked_queries, 0);
    assert!(stats.top_blocked_domains.is_empty());
}

#[test]
fn truncated_query_is_refused_and_not_counted() {
    let list = blocklist();
    let mut stats = Stats::new();
    let data = query_bytes(0x1234, true, question("ads.example.com.", RecordType::A));
    for cut in 0..data.len() {
        match handle_dns_query(&data[..cut], &list, &mut stats) {
            Err(QueryError::Malformed) => {}
            other => panic!("expected a refusal of the first {} bytes, got {:?}", cut, other),
        }
    }
    assert_eq!(stats.total_queries, 0);
    assert!(matches!(handle_dns_query(&data, &list, &mut stats), Ok(Action::Respond(_))));
    assert_eq!(stats.total_queries, 1);
}

#[test]
fn responses_are_ignored() {
    let list = blocklist();
    let mut stats = Stats::new();
    let mut message = Message::new();
    message.set_id(1);
    message.set_message_type(MessageType::Response);
    message.add_query(question("ads.example.com.", RecordType::A));
    let data = message.to_vec().unwrap();
    assert!(matches!(handle_dns_query(&data, &list, &mut stats), Ok(Action::Ignore)));
    assert_eq!(stats.total_queries, 0);
    assert!(stats.top_blocked_domains.is_empty());
}

#[test]
fn other_operations_are_ignored() {
    let list = blocklist();
    let mut stats = Stats::new();
    for op_code in [OpCode::Status, OpCode::Notify, OpCode::Update] {
        let mut message = Message::new();
        message.set_id(1);
        message.set_op_code(op_code);
        message.add_query(question("ads.example.com.", RecordType::A));
        let data = message.to_vec().unwrap();
        assert!(matches!(handle_dns_query(&data, &list, &mut stats), Ok(Action::Ignore)));
    }
    assert_eq!(stats.total_queries, 0);
}

#[test]
fn message_without_question_is_ignored() {
    let list = blocklist();
    let mut stats = Stats::new();
    let mut message = Message::new();
    message.set_id(1);
    let data = message.to_vec().unwrap();
    assert!(matches!(handle_dns_query(&data, &list, &mut stats), Ok(Action::Ignore)));
    assert_eq!(stats.total_queries, 0);
}

#[test]
fn only_the_first_question_counts() {
    let list = blocklist();
    let mut stats = Stats::new();
    let mut message = Message::new();
    message.set_id(1);
    message.add_query(question("www.example.com.", RecordType::A));
    message.add_query(question("ads.example.com.", RecordType::A));
    let data = message.to_vec().unwrap();
    assert!(matches!(handle_dns_query(&data, &list, &mut stats), Ok(Action::Forward)));
    assert_eq!(stats.allowed_queries, 1);
}

#[test]
fn two_queries_for_one_blocked_domain() {
    let list = blocklist();
    let mut stats = Stats::new();
    let first = query_bytes(1, true, question("ads.example.com.", RecordType::A));
    let second = query_bytes(2, true, question("ads.example.com.", RecordType::A));
    let mut ids = Vec::new();
    for data in [first, second] {
        match handle_dns_query(&data, &list, &mut stats) {
            Ok(Action::Respond(bytes)) => {
                let response = Message::from_vec(&bytes).unwrap();
                assert_eq!(response.response_code(), ResponseCode::NXDomain);
                ids.push(response.id());
            }
            other => panic!("expected a response, got {:?}", other),
        }
    }
    assert_eq!(ids, vec![1, 2]);
    assert_eq!(stats.blocked_count("ads.example.com"), 2);
    assert_eq!(stats.blocked_queries, 2);
    assert_eq!(stats.total_queries, 2);
}

#[test]
fn decoded_query_shows_header_and_question() {
    let data = query_bytes(0xbeef, true, question("Ads.Example.com.", RecordType::A));
    let message = DnsMessage::decode(&data).unwrap();
    assert_eq!(message.id, 0xbeef);
    assert!(!message.is_response);
    assert_eq!(message.op_code, OPCODE_QUERY);
    assert!(message.recursion_desired);
    assert!(!message.recursion_available);
    assert!(!message.authoritative);
    assert!(!message.truncated);
    assert_eq!(message.response_code, 0);
    assert!(message.is_standard_query());
    let question = message.question.as_ref().unwrap();
    assert_eq!(question.name(), "Ads.Example.com.");
    assert_eq!(question.query_type(), 1);
    assert_eq!(question.query_class(), 1);
    assert_eq!(message.domain(), Some("Ads.Example.com".to_string()));
}

#[test]
fn decoded_question_shows_type_and_class() {
    let mut asked = question("example.org.", RecordType::AAAA);
    asked.set_query_class(DNSClass::CH);
    let message = DnsMessage::decode(&query_bytes(1, false, asked)).unwrap();
    let question = message.question.as_ref().unwrap();
    assert_eq!(question.name(), "example.org.");
    assert_eq!(question.query_type(), 28);
    assert_eq!(question.query_class(), 3);
    assert!(!message.recursion_desired);
}

#[test]
fn root_name_gives_the_empty_domain() {
    let data = query_bytes(3, true, Query::query(Name::root(), RecordType::NS));
    let message = DnsMessage::decode(&data).unwrap();
    assert_eq!(message.domain(), Some(String::new()));
}

#[test]
fn encoding_writes_what_decoding_reads() {
    let data = query_bytes(0x0102, false, question("www.example.com.", RecordType::MX));
    let message = DnsMessage::decode(&data).unwrap();
    assert_eq!(message.encode().unwrap(), data);
}

#[test]
fn unknown_operation_cannot_be_encoded() {
    let message = DnsMessage {
        id: 1,
        is_response: false,
        op_code: 1,
        authoritative: false,
        truncated: false,
        recursion_desired: false,
        recursion_available: false,
        response_code: 0,
        question: None,
    };
    assert_eq!(message.encode(), Err(QueryError::Unencodable));
}

#[test]
fn negative_response_keeps_id_flag_and_question() {
    let data = query_bytes(0x4242, true, question("ads.example.com.", RecordType::A));
    let request = DnsMessage::decode(&data).unwrap();
    let response = create_nxdomain_response(request);
    assert_eq!(response.id, 0x4242);
    assert!(response.is_response);
    assert_eq!(response.op_code, OPCODE_QUERY);
    assert!(!response.authoritative);
    assert!(!response.truncated);
    assert!(response.recursion_desired);
    assert!(response.recursion_available);
    assert_eq!(response.response_code, NXDOMAIN);
    assert_eq!(response.response_code, 3);
    assert_eq!(response.question.as_ref().unwrap().name(), "ads.example.com.");
    assert_eq!(response.domain(), Some("ads.example.com".to_string()));
}

#[test]
fn negative_response_to_a_message_without_question() {
    let request = DnsMessage {
        id: 9,
        is_response: false,
        op_code: OPCODE_QUERY,
        authoritative: true,
        truncated: true,
        recursion_desired: false,
        recursion_available: false,
        response_code: 0,
        question: None,
    };
    let response = create_nxdomain_response(request);
    assert_eq!(response.id, 9);
    assert!(response.is_response);
    assert!(!response.authoritative);
    assert!(!response.truncated);
    assert!(!response.recursion_desired);
    assert!(response.recursion_available);
    assert_eq!(response.response_code, NXDOMAIN);
    assert!(response.question.is_none());
    let decoded = Message::from_vec(&response.encode().unwrap()).unwrap();
    assert_eq!(decoded.response_code(), ResponseCode::NXDomain);
    assert!(decoded.queries().is_empty());
}

#[test]
fn respond_decides_on_the_decoded_message() {
    let list = blocklist();
    let mut stats = Stats::new();
    let data = query_bytes(11, true, question("tracker.example.org.", RecordType::A));
    let request = DnsMessage::decode(&data).unwrap();
    assert!(matches!(respond(request, &list, &mut stats), Ok(Action::Respond(_))));
    let data = query_bytes(12, true, question("example.org.", RecordType::A));
    let request = DnsMessage::decode(&data).unwrap();
    assert!(matches!(respond(request, &list, &mut stats), Ok(Action::Forward)));
    assert_eq!(stats.total_queries, 2);
    assert_eq!(stats.blocked_queries, 1);
    assert_eq!(stats.allowed_queries, 1);
}

#[test]
fn trailing_dots_are_stripped() {
    assert_eq!(strip_trailing_dots("ads.example.com."), "ads.example.com");
    assert_eq!(strip_trailing_dots("ads.example.com"), "ads.example.com");
    assert_eq!(strip_trailing_dots("a.b..."), "a.b");
    assert_eq!(strip_trailing_dots(".a"), ".a");
    assert_eq!(strip_trailing_dots("..."), "");
    assert_eq!(strip_trailing_dots("."), "");
    assert_eq!(strip_trailing_dots(""), "");
}

#[test]
fn name_with_root_separator_in_the_source_blocks_the_query() {
    let sources: Vec<Result<String, String>> = vec![Ok("0.0.0.0 Ads.Example.com.\n".to_string())];
    let list = Blocklist::new(sources).unwrap();
    let mut stats = Stats::new();
    let data = query_bytes(21, true, question("ads.example.com.", RecordType::A));
    assert!(matches!(handle_dns_query(&data, &list, &mut stats), Ok(Action::Respond(_))));
    assert_eq!(stats.blocked_count("ads.example.com"), 1);
}

fn record(type_code: u16, data: &[u8]) -> Vec<u8> {
    let mut bytes = vec![0x00];
    bytes.extend_from_slice(&type_code.to_be_bytes());
    bytes.extend_from_slice(&[0x00, 0x01, 0x00, 0x00, 0x00, 0x3c]);
    bytes.extend_from_slice(&(data.len() as u16).to_be_bytes());
    bytes.extend_from_slice(data);
    bytes
}

#[test]
fn record_of_a_type_without_reader_is_unsupported() {
    let list = blocklist();
    let mut stats = Stats::new();
    let mut data: Vec<u8> =
        vec![0x00, 0x01, 0x00, 0x00, 0x00, 0x00, 0x00, 0x01, 0x00, 0x00, 0x00, 0x00];
    data.extend_from_slice(&record(48, &[0xff]));
    assert!(matches!(handle_dns_query(&data, &list, &mut stats), Err(QueryError::Unsupported)));
    assert_eq!(DnsMessage::decode(&data).err(), Some(QueryError::Unsupported));
    for type_code in [24u16, 25, 43, 46, 47, 48, 50, 51, 59, 60, 250, 251, 252, 255] {
        let mut data = query_bytes(3, true, question("ads.example.com.", RecordType::A));
        data[11] = 1;
        data.extend_from_slice(&record(type_code, &[1, 2, 3, 4]));
        match handle_dns_query(&data, &list, &mut stats) {
            Err(QueryError::Unsupported) => {}
            other => panic!("expected no decoding of type {}, got {:?}", type_code, other),
        }
    }
    assert_eq!(stats.total_queries, 0);
    assert!(stats.top_blocked_domains.is_empty());
}

#[test]
fn record_without_data_is_read_whatever_its_type() {
    let list = blocklist();
    let mut stats = Stats::new();
    let mut data = query_bytes(3, true, question("ads.example.com.", RecordType::A));
    data[11] = 2;
    data.extend_from_slice(&record(48, &[]));
    data.extend_from_slice(&record(255, &[]));
    assert!(matches!(handle_dns_query(&data, &list, &mut stats), Ok(Action::Respond(_))));
    assert_eq!(stats.blocked_queries, 1);
}

#[test]
fn records_with_readers_are_read() {
    let list = blocklist();
    let mut stats = Stats::new();
    let mut data = query_bytes(3, true, question("ads.example.com.", RecordType::A));
    data[7] = 1;
    data[11] = 2;
    data.extend_from_slice(&record(1, &[10, 0, 0, 1]));
    data.extend_from_slice(&record(65000, &[9, 9, 9]));
    data.extend_from_slice(&record(41, &[]));
    assert!(matches!(handle_dns_query(&data, &list, &mut stats), Ok(Action::Respond(_))));
    let mut data = query_bytes(4, true, question("www.example.com.", RecordType::A));
    data[11] = 1;
    data.extend_from_slice(&record(41, &[0x00, 0x0a, 0x00, 0x02, 0xab, 0xcd]));
    assert!(matches!(handle_dns_query(&data, &list, &mut stats), Ok(Action::Forward)));
    assert_eq!(stats.total_queries, 2);
}

#[test]
fn record_that_cannot_be_read_makes_the_datagram_malformed() {
    let list = blocklist();
    let mut stats = Stats::new();
    let whole = record(1, &[10, 0, 0, 1]);
    for cut in 0..whole.len() {
        let mut data = query_bytes(0x0a0b, true, question("ads.example.com.", RecordType::A));
        data[7] = 1;
        data.extend_from_slice(&whole[..cut]);
        match handle_dns_query(&data, &list, &mut stats) {
            Err(QueryError::Malformed) => {}
            other => panic!("expected a refusal with {} bytes of the record, got {:?}", cut, other),
        }
    }
    let mut wrong_length = query_bytes(1, true, question("ads.example.com.", RecordType::A));
    wrong_length[7] = 1;
    wrong_length.extend_from_slice(&record(1, &[10, 0, 0]));
    assert!(matches!(handle_dns_query(&wrong_length, &list, &mut stats), Err(QueryError::Malformed)));
    let mut cut_signature = query_bytes(1, true, question("ads.example.com.", RecordType::A));
    cut_signature[7] = 1;
    cut_signature.extend_from_slice(&[0x00, 0x00, 0x2e, 0x00, 0x01, 0x00]);
    assert!(matches!(handle_dns_query(&cut_signature, &list, &mut stats), Err(QueryError::Malformed)));
    assert_eq!(stats.total_queries, 0);
    assert!(stats.top_blocked_domains.is_empty());
}

#[test]
fn second_question_that_cannot_be_read_makes_the_datagram_malformed() {
    let list = blocklist();
    let mut stats = Stats::new();
    let mut data = query_bytes(7, true, question("ads.example.com.", RecordType::A));
    data[5] = 2;
    assert!(matches!(handle_dns_query(&data, &list, &mut stats), Err(QueryError::Malformed)));
    data.extend_from_slice(&[0x03, b'w', b'w']);
    assert!(matches!(handle_dns_query(&data, &list, &mut stats), Err(QueryError::Malformed)));
    assert_eq!(stats.total_queries, 0);
}

#[test]
fn bytes_behind_the_message_are_left_alone() {
    let list = blocklist();
    let mut stats = Stats::new();
    let mut junk = query_bytes(5, true, question("www.example.com.", RecordType::A));
    junk.extend_from_slice(&[0xff; 9]);
    assert!(matches!(handle_dns_query(&junk, &list, &mut stats), Ok(Action::Forward)));
    assert_eq!(stats.allowed_queries, 1);
}

#[test]
fn header_is_needed_in_full() {
    let header: Vec<u8> = vec![0x12, 0x34, 0x01, 0x00, 0x00, 0x00, 0x00, 0x00, 0x00, 0x00, 0x00, 0x00];
    let message = DnsMessage::decode(&header).unwrap();
    assert_eq!(message.id, 0x1234);
    assert!(message.recursion_desired);
    assert!(message.is_standard_query());
    assert!(message.question.is_none());
    for cut in 0..header.len() {
        assert_eq!(DnsMessage::decode(&header[..cut]).err(), Some(QueryError::Malformed));
    }
}

#[test]
fn announced_question_must_be_there() {
    let header: Vec<u8> = vec![0x12, 0x34, 0x01, 0x00, 0x00, 0x01, 0x00, 0x00, 0x00, 0x00, 0x00, 0x00];
    assert_eq!(DnsMessage::decode(&header).err(), Some(QueryError::Malformed));
    let mut bad_class = header.clone();
    bad_class.extend_from_slice(&[0x01, b'a', 0x00, 0x00, 0x01, 0x00, 0x07]);
    assert_eq!(DnsMessage::decode(&bad_class).err(), Some(QueryError::Malformed));
    let mut bad_label = header.clone();
    bad_label.extend_from_slice(&[0x81, b'a', 0x00, 0x00, 0x01, 0x00, 0x01]);
    assert_eq!(DnsMessage::decode(&bad_label).err(), Some(QueryError::Malformed));
    let mut good = header.clone();
    good.extend_from_slice(&[0x01, b'a', 0x00, 0x00, 0x01, 0x00, 0x01]);
    assert_eq!(DnsMessage::decode(&good).unwrap().domain(), Some("a".to_string()));
}

#[test]
fn unknown_operation_is_malformed() {
    let data: Vec<u8> = vec![0x12, 0x34, 0x08, 0x00, 0x00, 0x00, 0x00, 0x00, 0x00, 0x00, 0x00, 0x00];
    assert_eq!(DnsMessage::decode(&data).err(), Some(QueryError::Malformed));
}

#[test]
fn unannounced_question_is_left_out() {
    let mut data = query_bytes(9, true, question("ads.example.com.", RecordType::A));
    data[5] = 0;
    let message = DnsMessage::decode(&data).unwrap();
    assert!(message.question.is_none());
    assert_eq!(message.domain(), None);
}

#[test]
fn message_is_assembled_from_header_and_question() {
    let header = Header {
        id: 77,
        is_response: false,
        op_code: OPCODE_QUERY,
        authoritative: false,
        truncated: true,
        recursion_desired: true,
        recursion_available: false,
        response_code: 2,
        question_count: 0,
        answer_count: 0,
        authority_count: 0,
        additional_count: 0,
    };
    let message = DnsMessage::assemble(header, None);
    assert_eq!(message.id, 77);
    assert!(!message.is_response);
    assert!(message.truncated);
    assert!(message.recursion_desired);
    assert_eq!(message.response_code, 2);
    assert!(message.question.is_none());
    let data = query_bytes(1, true, question("Example.ORG.", RecordType::A));
    let first = DnsMessage::decode(&data).unwrap().question;
    let message = DnsMessage::assemble(header, first);
    assert_eq!(message.domain(), Some("Example.ORG".to_string()));
}

#[test]
fn full_counter_refuses_to_count() {
    let list = blocklist();
    let mut stats = Stats {
        total_queries: u64::MAX,
        blocked_queries: 1,
        allowed_queries: u64::MAX - 1,
        top_blocked_domains: vec![DomainCount { domain: "ads.example.com".to_string(), count: 1 }],
    };
    for name in ["ads.example.com.", "www.example.com."] {
        let data = query_bytes(1, true, question(name, RecordType::A));
        match handle_dns_query(&data, &list, &mut stats) {
            Err(QueryError::CountersFull) => {}
            other => panic!("expected a refusal to count, got {:?}", other),
        }
    }
    assert_eq!(stats.total_queries, u64::MAX);
    assert_eq!(stats.blocked_queries, 1);
    assert_eq!(stats.allowed_queries, u64::MAX - 1);
    assert_eq!(stats.blocked_count("ads.example.com"), 1);
    assert!(matches!(handle_dns_query(&[1, 2, 3], &list, &mut stats), Err(QueryError::Malformed)));
    let mut response = Message::new();
    response.set_message_type(MessageType::Response);
    let data = response.to_vec().unwrap();
    assert!(matches!(handle_dns_query(&data, &list, &mut stats), Ok(Action::Ignore)));
}

#[test]
fn no_record_type_stops_the_handling() {
    let list = blocklist();
    let mut stats = Stats::new();
    let unread = [24u16, 25, 43, 46, 47, 48, 50, 51, 59, 60, 250, 251, 252, 255];
    for type_code in 0..=u16::MAX {
        for length in [0usize, 1, 4, 16] {
            let mut data = query_bytes(type_code, true, question("www.example.com.", RecordType::A));
            data[11] = 1;
            data.extend_from_slice(&record(type_code, &vec![0x01; length]));
            let outcome = handle_dns_query(&data, &list, &mut stats);
            if unread.contains(&type_code) && length > 0 {
                assert!(matches!(outcome, Err(QueryError::Unsupported)), "type {}", type_code);
            } else {
                assert!(
                    matches!(outcome, Ok(Action::Forward) | Err(QueryError::Malformed)),
                    "type {} with {} bytes: {:?}",
                    type_code,
                    length,
                    outcome
                );
            }
        }
    }
    assert_eq!(stats.total_queries, stats.allowed_queries);
    assert_eq!(stats.blocked_queries, 0);
}
