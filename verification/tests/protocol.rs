//! Byte-level protocol tests: parsing, framing, capabilities and the
//! command encoders.

use meli::auth::sieve_auth_command;
use meli::bytes::{parse_u64, parse_usize, split_by};
use meli::capabilities::Capabilities;
use meli::connection::{
    auth_plan, encode_raw, login_command, starttls_diagnostic, AuthMethod, ImapProtocol,
    StreamState,
};
use meli::fetch::{build_envelope, fetch_row};
use meli::framer::{literal_marker, next_record_end, Framer, LiteralMarker};
use meli::types::generate_envelope_hash;
use meli::operations::{
    append_command, copy_command, fetch_batches, fetch_from_command, flags_list, query_to_imap,
    select_command, store_command, uid_fetch_command, SearchQuery,
};
use meli::parser::{capabilities_line, lines_of, trim_crlf, untagged_response, UntaggedResponse};
use meli::response::{check_required, kv_lookup, response_kind, search_results, ResponseKind,
    REQ_EXISTS, REQ_FLAGS, REQ_OK_CODE, REQ_RECENT, SELECT_REQUIRED};
use meli::select::select_response;
use meli::types::{AuthError, Flag, ImapError, NetworkError, ProtocolError, FLAG_DELETED,
    FLAG_SEEN};

#[test]
fn parse_usize_basics() {
    assert_eq!(parse_usize(b"0"), Some(0));
    assert_eq!(parse_usize(b"23"), Some(23));
    assert_eq!(parse_usize(b"007"), Some(7));
    assert_eq!(parse_usize(b""), None);
    assert_eq!(parse_usize(b"12a"), None);
    assert_eq!(parse_usize(b"99999999999999999999999999"), None);
    assert_eq!(parse_u64(b"4294967295"), Some(4294967295));
}

#[test]
fn split_by_spaces() {
    let toks = split_by(b"* CAPABILITY  IMAP4rev1 IDLE", 32);
    let toks: Vec<&[u8]> = toks.iter().map(|t| t.as_slice()).collect();
    assert_eq!(toks, vec![&b"*"[..], &b"CAPABILITY"[..], &b"IMAP4rev1"[..], &b"IDLE"[..]]);
}

#[test]
fn untagged_numeric_lines() {
    match untagged_response(b"* 23 EXISTS\r\n") {
        Some(UntaggedResponse::Exists(n)) => assert_eq!(n, 23),
        other => panic!("wrong parse: {:?}", other),
    }
    match untagged_response(b"* 0 RECENT\r\n") {
        Some(UntaggedResponse::Recent(n)) => assert_eq!(n, 0),
        other => panic!("wrong parse: {:?}", other),
    }
    match untagged_response(b"* 4 expunge\r\n") {
        Some(UntaggedResponse::Expunge(n)) => assert_eq!(n, 4),
        other => panic!("wrong parse: {:?}", other),
    }
    match untagged_response(b"* 2 FETCH (FLAGS (\\Seen))\r\n") {
        Some(UntaggedResponse::Fetch(n)) => assert_eq!(n, 2),
        other => panic!("wrong parse: {:?}", other),
    }
    assert!(untagged_response(b"* OK ready\r\n").is_none());
    assert!(untagged_response(b"M3 OK done\r\n").is_none());
}

#[test]
fn capability_line_parses() {
    let caps = capabilities_line(b"* CAPABILITY IMAP4rev1 IDLE CONDSTORE\r\n").unwrap();
    let caps: Vec<&[u8]> = caps.iter().map(|t| t.as_slice()).collect();
    assert_eq!(caps, vec![&b"IMAP4rev1"[..], &b"IDLE"[..], &b"CONDSTORE"[..]]);
    assert!(capabilities_line(b"* OK hello\r\n").is_none());
}

#[test]
fn capability_round_trip_is_order_insensitive() {
    let a = Capabilities::from_tokens(vec![b"IDLE".to_vec(), b"IMAP4rev1".to_vec()]);
    let b = Capabilities::from_tokens(vec![b"IMAP4rev1".to_vec(), b"idle".to_vec()]);
    // serializing and reparsing either list yields the same set
    let line_a = a.serialize();
    let line_b = b.serialize();
    let ra = Capabilities::from_tokens(capabilities_line(&line_a).unwrap());
    let rb = Capabilities::from_tokens(capabilities_line(&line_b).unwrap());
    for name in [&b"IMAP4rev1"[..], &b"IDLE"[..], &b"idle"[..]] {
        assert_eq!(ra.has(name), rb.has(name));
        assert!(ra.has(name));
    }
    assert!(!ra.has(b"CONDSTORE"));
}

#[test]
fn capability_membership_is_case_insensitive() {
    let caps = Capabilities::from_tokens(vec![b"Imap4Rev1".to_vec()]);
    assert!(caps.has(b"IMAP4REV1"));
    assert!(caps.has(b"imap4rev1"));
    assert!(!caps.has(b"IDLE"));
}

#[test]
fn literal_marker_detection() {
    assert_eq!(literal_marker(b"M2 LOGIN \"alice\" {5}\r\n"), LiteralMarker::Count(5));
    assert_eq!(literal_marker(b"x {0}\r\n"), LiteralMarker::Count(0));
    assert_eq!(literal_marker(b"x {}\r\n"), LiteralMarker::Absent);
    assert_eq!(literal_marker(b"plain line\r\n"), LiteralMarker::Absent);
    assert_eq!(literal_marker(b"x {12\r\n"), LiteralMarker::Absent);
}

#[test]
fn record_framing_with_literals() {
    // a literal of 5 bytes containing a CRLF does not end the record
    let buf = b"* 1 FETCH (BODY {5}\r\nab\r\nc)\r\n";
    assert_eq!(next_record_end(buf), Some(buf.len()));
    // the record is incomplete while literal bytes are missing
    assert_eq!(next_record_end(b"* 1 FETCH (BODY {5}\r\nab"), None);
    // a plain line is one record
    assert_eq!(next_record_end(b"M1 OK done\r\nrest"), Some(12));
}

#[test]
fn empty_literal_yields_empty_payload_and_tagged_ok() {
    // a {0} literal carries no bytes: the record continues immediately
    let buf = b"* 1 FETCH (BODY {0}\r\n)\r\nM4 OK done\r\n";
    let mut framer = Framer::new();
    framer.push_bytes(buf);
    let first = framer.pop_record().expect("first record");
    assert_eq!(&first[..], &b"* 1 FETCH (BODY {0}\r\n)\r\n"[..]);
    // the payload between the marker line and the closing line is empty
    assert_eq!(literal_marker(b"* 1 FETCH (BODY {0}\r\n"), LiteralMarker::Count(0));
    let second = framer.pop_record().expect("second record");
    assert_eq!(response_kind(&second), Some(ResponseKind::StatusOk));
    assert!(framer.pop_record().is_none());
}

#[test]
fn lines_split_on_crlf() {
    let lines = lines_of(b"* A\r\n* B\r\ntail");
    let lines: Vec<&[u8]> = lines.iter().map(|l| l.as_slice()).collect();
    assert_eq!(lines, vec![&b"* A"[..], &b"* B"[..], &b"tail"[..]]);
    assert_eq!(trim_crlf(b"abc\r\n"), b"abc".to_vec());
}

#[test]
fn response_kinds() {
    assert_eq!(response_kind(b"M1 OK done\r\n"), Some(ResponseKind::StatusOk));
    assert_eq!(response_kind(b"M4 NO already compressed\r\n"), Some(ResponseKind::StatusNo));
    assert_eq!(response_kind(b"M2 BAD syntax\r\n"), Some(ResponseKind::StatusBad));
    assert_eq!(response_kind(b"* BYE bye\r\n"), Some(ResponseKind::StatusBye));
    assert_eq!(response_kind(b"* PREAUTH hi\r\n"), Some(ResponseKind::StatusPreauth));
    assert_eq!(response_kind(b"* 3 EXISTS\r\n"), None);
}

#[test]
fn select_response_full() {
    let buf = b"* 0 EXISTS\r\n* 0 RECENT\r\n* OK [UIDVALIDITY 1]\r\n* OK [UIDNEXT 1]\r\nM3 OK [READ-WRITE] done\r\n";
    let sr = select_response(buf).unwrap();
    assert_eq!(sr.exists, 0);
    assert_eq!(sr.recent, 0);
    assert_eq!(sr.uidvalidity, Some(1));
    assert_eq!(sr.uidnext, Some(1));
    assert_eq!(sr.highestmodseq, None);
    assert!(!sr.read_only);
}

#[test]
fn select_response_flags_and_modseq() {
    let buf = b"* 18 EXISTS\r\n* 2 RECENT\r\n* FLAGS (\\Answered \\Seen)\r\n* OK [PERMANENTFLAGS (\\Seen \\*)]\r\n* OK [HIGHESTMODSEQ 715194045007]\r\nM5 OK [READ-ONLY] done\r\n";
    let sr = select_response(buf).unwrap();
    assert_eq!(sr.exists, 18);
    assert_eq!(sr.recent, 2);
    assert_eq!(sr.highestmodseq, Some(715194045007));
    assert!(sr.read_only);
    let flags: Vec<&[u8]> = sr.flags.iter().map(|f| f.as_slice()).collect();
    assert_eq!(flags, vec![&b"\\Answered"[..], &b"\\Seen"[..]]);
    let pflags: Vec<&[u8]> = sr.permanent_flags.iter().map(|f| f.as_slice()).collect();
    assert_eq!(pflags, vec![&b"\\Seen"[..], &b"\\*"[..]]);
}

#[test]
fn select_response_rejects_bad_code_argument() {
    assert!(select_response(b"* OK [UIDVALIDITY abc]\r\n").is_err());
}

#[test]
fn search_results_parse() {
    let v = search_results(b"* SEARCH 4 8 15 16\r\nM6 OK done\r\n").unwrap();
    assert_eq!(v, vec![4, 8, 15, 16]);
    assert!(search_results(b"M6 OK done\r\n").is_none());
}

#[test]
fn status_counters_lookup() {
    let toks = split_by(b"MESSAGES 12 UNSEEN 3", 32);
    assert_eq!(kv_lookup(&toks, b"MESSAGES"), Some(12));
    assert_eq!(kv_lookup(&toks, b"UNSEEN"), Some(3));
    assert_eq!(kv_lookup(&toks, b"RECENT"), None);
}

#[test]
fn required_responses_filter() {
    assert!(check_required(SELECT_REQUIRED, b"* 3 EXISTS\r\n"));
    assert!(check_required(SELECT_REQUIRED, b"* 1 RECENT\r\n"));
    assert!(check_required(SELECT_REQUIRED, b"* FLAGS (\\Seen)\r\n"));
    assert!(check_required(SELECT_REQUIRED, b"* OK [UIDVALIDITY 9]\r\n"));
    assert!(!check_required(SELECT_REQUIRED, b"* SEARCH 1 2\r\n"));
    assert!(!check_required(REQ_EXISTS | REQ_RECENT | REQ_FLAGS | REQ_OK_CODE, b"* LIST () \".\" INBOX\r\n"));
}

#[test]
fn command_tags_increase() {
    let mut st = StreamState::new(ImapProtocol::Imap, None);
    let c1 = st.encode_command(b"CAPABILITY");
    assert_eq!(&c1[..], &b"M1 CAPABILITY\r\n"[..]);
    let c2 = st.encode_command(b"NOOP");
    assert_eq!(&c2[..], &b"M2 NOOP\r\n"[..]);
    assert_eq!(st.cmd_id, 3);
    assert_eq!(&st.expected_tag()[..], &b"M2 "[..]);
}

#[test]
fn login_command_escapes_username_only() {
    // the password travels as a literal of its byte length, unescaped
    let cmd = login_command(b"alice", 5);
    assert_eq!(&cmd[..], &b"LOGIN \"alice\" {5}"[..]);
    let tricky = login_command(b"a\"b\\c{d}", 8);
    assert_eq!(&tricky[..], &b"LOGIN \"a\\\"b\\\\c\\{d\\}\" {8}"[..]);
    let payload = encode_raw(b"a\"b\\c{d}");
    assert_eq!(&payload[..], &b"a\"b\\c{d}\r\n"[..]);
}

#[test]
fn auth_plan_gates_login() {
    let plain = Capabilities::from_tokens(vec![b"IMAP4rev1".to_vec()]);
    assert_eq!(auth_plan(&plain, false), Ok(AuthMethod::Login));
    let disabled = Capabilities::from_tokens(vec![
        b"IMAP4rev1".to_vec(),
        b"LOGINDISABLED".to_vec(),
    ]);
    // on LOGINDISABLED no LOGIN is ever sent
    assert_eq!(
        auth_plan(&disabled, false),
        Err(ImapError::Authentication(AuthError::LoginDisabled))
    );
    assert_eq!(
        auth_plan(&disabled, true),
        Err(ImapError::Authentication(AuthError::LoginDisabled))
    );
    let old = Capabilities::from_tokens(vec![b"IMAP2".to_vec()]);
    assert_eq!(auth_plan(&old, false), Err(ImapError::Protocol(ProtocolError::NotImap4rev1)));
    let oauth = Capabilities::from_tokens(vec![
        b"IMAP4rev1".to_vec(),
        b"AUTH=XOAUTH2".to_vec(),
    ]);
    assert_eq!(auth_plan(&oauth, true), Ok(AuthMethod::Xoauth2));
    assert_eq!(
        auth_plan(&plain, true),
        Err(ImapError::Authentication(AuthError::OauthMissing))
    );
}

#[test]
fn starttls_diagnostic_mentions_port_993() {
    let (kind, msg) = starttls_diagnostic(993);
    assert_eq!(kind, ImapError::Network(NetworkError::TlsHandshake));
    assert_eq!(
        msg,
        "STARTTLS failed. Server port is set to 993, which normally uses TLS. Maybe try disabling use_starttls."
    );
    let (kind2, msg2) = starttls_diagnostic(143);
    assert_eq!(kind2, ImapError::Network(NetworkError::TlsHandshake));
    assert_eq!(msg2, "STARTTLS failed. Is the connection already encrypted?");
}

#[test]
fn command_builders() {
    assert_eq!(&select_command(b"INBOX", false)[..], &b"SELECT \"INBOX\""[..]);
    assert_eq!(&select_command(b"INBOX", true)[..], &b"EXAMINE \"INBOX\""[..]);
    let uids = vec![1u64, 5, 9];
    assert_eq!(
        &uid_fetch_command(&uids)[..],
        &b"UID FETCH 1,5,9 (UID FLAGS ENVELOPE BODY.PEEK[HEADER.FIELDS (REFERENCES)] BODYSTRUCTURE)"[..]
    );
    assert_eq!(
        &fetch_from_command(3)[..],
        &b"FETCH 3:* (UID FLAGS ENVELOPE BODY.PEEK[HEADER.FIELDS (REFERENCES)] BODYSTRUCTURE)"[..]
    );
    assert_eq!(&copy_command(&uids, b"Trash")[..], &b"UID COPY 1,5,9 \"Trash\""[..]);
}

#[test]
fn store_and_append_commands() {
    let uids = vec![7u64];
    let f = Flag::empty().set(FLAG_SEEN);
    assert_eq!(&store_command(&uids, true, f)[..], &b"UID STORE 7 +FLAGS (\\Seen)"[..]);
    assert_eq!(&store_command(&uids, false, f)[..], &b"UID STORE 7 -FLAGS (\\Seen)"[..]);
    let both = f.set(FLAG_DELETED);
    assert_eq!(&flags_list(both)[..], &b"\\Seen \\Deleted"[..]);
    assert_eq!(
        &append_command(b"Drafts", f, 310)[..],
        &b"APPEND \"Drafts\" (\\Seen) {310}"[..]
    );
}

#[test]
fn fetch_batches_partition() {
    let b = fetch_batches(1000, 250);
    assert_eq!(b.len(), 4);
    assert_eq!((b[0].low, b[0].high), (751, 1000));
    assert_eq!((b[3].low, b[3].high), (1, 250));
    for w in b.windows(2) {
        assert_eq!(w[0].low, w[1].high + 1);
    }
    assert!(fetch_batches(0, 250).is_empty());
    let single = fetch_batches(10, 250);
    assert_eq!(single.len(), 1);
    assert_eq!((single[0].low, single[0].high), (1, 10));
}

#[test]
fn search_query_rendering() {
    let q = SearchQuery::And(
        Box::new(SearchQuery::Unseen),
        Box::new(SearchQuery::From(b"ada".to_vec())),
    );
    assert_eq!(&query_to_imap(&q)[..], &b"UNSEEN FROM \"ada\""[..]);
    let q2 = SearchQuery::Or(
        Box::new(SearchQuery::Flagged),
        Box::new(SearchQuery::Not(Box::new(SearchQuery::All))),
    );
    assert_eq!(&query_to_imap(&q2)[..], &b"OR (FLAGGED) (NOT (ALL))"[..]);
    let q3 = SearchQuery::Subject(b"hi".to_vec());
    assert_eq!(&query_to_imap(&q3)[..], &b"SUBJECT \"hi\""[..]);
    let q4 = SearchQuery::Body(b"war"[..].to_vec());
    assert_eq!(&query_to_imap(&q4)[..], &b"BODY \"war\""[..]);
}

#[test]
fn sieve_auth_uses_base64() {
    // base64 of "\0user\0pass" is AHVzZXIAcGFzcw==; an identity "encoder"
    // could not produce this
    let cmd = sieve_auth_command(b"user", b"pass");
    assert_eq!(&cmd[..], &b"AUTHENTICATE \"PLAIN\" \"AHVzZXIAcGFzcw==\""[..]);
    let empty = sieve_auth_command(b"", b"");
    assert_eq!(&empty[..], &b"AUTHENTICATE \"PLAIN\" \"AAA=\""[..]);
}

#[test]
fn fetch_row_extracts_uid_flags_modseq() {
    let row = fetch_row(b"* 2 FETCH (UID 17 MODSEQ (2529) FLAGS (\\Seen \\Answered))\r\n").unwrap();
    assert_eq!(row.msn, 2);
    assert_eq!(row.uid, Some(17));
    assert_eq!(row.modseq, Some(2529));
    assert!(row.flags.has(FLAG_SEEN));
    assert!(!row.flags.has(FLAG_DELETED));
    let env = build_envelope(b"INBOX", &row).unwrap();
    assert_eq!(env.uid, 17);
    assert_eq!(env.hash, generate_envelope_hash(b"INBOX", 17));
    assert_eq!(env.flags, row.flags);
    assert!(fetch_row(b"* 3 EXISTS\r\n").is_none());
    let bare = fetch_row(b"* 9 FETCH (FLAGS ())\r\n").unwrap();
    assert_eq!(bare.uid, None);
    assert!(build_envelope(b"INBOX", &bare).is_none());
}

#[test]
fn stored_flags_come_back_from_fetch() {
    // add a flag, then read it back from the FLAGS fetch — and after the
    // removing store, it is gone
    let uids = vec![17u64];
    let f = Flag::empty().set(FLAG_SEEN);
    let added = store_command(&uids, true, f);
    assert_eq!(&added[..], &b"UID STORE 17 +FLAGS (\\Seen)"[..]);
    let row = fetch_row(b"* 2 FETCH (UID 17 FLAGS (\\Seen))\r\n").unwrap();
    assert!(row.flags.has(FLAG_SEEN));
    let removed = store_command(&uids, false, f);
    assert_eq!(&removed[..], &b"UID STORE 17 -FLAGS (\\Seen)"[..]);
    let row2 = fetch_row(b"* 2 FETCH (UID 17 FLAGS ())\r\n").unwrap();
    assert!(!row2.flags.has(FLAG_SEEN));
    assert_eq!(row2.flags, Flag::empty());
}
