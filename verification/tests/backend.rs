//! State-machine tests: the UID store, connection lifecycle, watcher
//! timing, resynchronization and the smaller configuration types.

use meli::accounts::MailboxEntry;
use meli::capabilities::Capabilities;
use meli::collection::Collection;
use meli::components::{PageMovement, ScrollContext};
use meli::conf::{
    default_lookup_mechanism, internal_value_false, ComposingSettingsOverride, MailFormat,
    NotificationsSettingsOverride, PGPSettings, PGPSettingsOverride, PagerSettingsOverride,
    TagsSettingsOverride, ToggleFlag, LOCATE_LOCAL, LOCATE_WKD,
};
use meli::connection::{
    compress_upgrade, phase_event, qresync_allowed, ConnectPhase, condstore_step, deflate_step, fresh_nonexistent_name, unselect_plan,
    CondstoreStep, ConnectStep, Connection, ImapExtensionUse, ImapProtocol, MailboxSelection,
    SelectPlan, StreamState, SyncPolicy, PROTOCOL_TIMEOUT_MS,
};
use meli::response::{partition_response, response_kind, status_notice, vanished_line,
    ResponseKind, SELECT_REQUIRED};
use meli::envelope::{BackendEvent, Envelope};
use meli::logging::{change_log_level, get_log_level, log, Logger, LoggingLevel};
use meli::mailbox::{idle_target, list_entry, mailbox_from_list, mailbox_hash_bytes,
    MailboxIndex, MailboxPermissions};
use meli::fetch::fetch_row;
use meli::operations::{create_command, delete_command, rename_command, subscribe_command};
use meli::sync::{
    apply_cold_counters, apply_fetch_rows, apply_vanished, flag_change_events, process_untagged,
    register_envelopes, sync_plan, SyncStep, UntaggedAction,
};
use meli::types::{generate_envelope_hash, Flag, ImapError, FLAG_SEEN};
use meli::uid_store::{MailboxState, TagIndex};
use meli::watch::{PollState, WatchEvent, WatcherState, HEARTBEAT_MS, PEER_POLL_MS};

fn envelope(uid: usize, hash: u64) -> Envelope {
    Envelope {
        hash,
        uid,
        subject: b"s".to_vec(),
        from_addr: b"f".to_vec(),
        date: b"d".to_vec(),
        flags: Flag::empty(),
        tags: Vec::new(),
        references: Vec::new(),
        has_attachments: false,
    }
}

#[test]
fn register_is_deduplicated() {
    let mut st = MailboxState::new();
    assert!(st.register(1, 100));
    // the same (uid, hash) pair is created at most once
    assert!(!st.register(1, 100));
    assert!(!st.register(1, 200));
    assert!(!st.register(2, 100));
    assert!(st.register(2, 200));
    assert_eq!(st.exists_count, 2);
    assert_eq!(st.msn, vec![1, 2]);
}

#[test]
fn uid_and_hash_maps_stay_inverse() {
    let mut st = MailboxState::new();
    st.register(10, 1000);
    st.register(11, 1001);
    st.register(12, 1002);
    // P1 concretely: as many UIDs as hashes, and they map back
    assert_eq!(st.uid_to_hash.len(), st.hash_to_uid.len());
    assert_eq!(st.uid_of(1001), Some(11));
    assert_eq!(st.hash_of(12), Some(1002));
    assert_eq!(st.uid_of(9999), None);
}

#[test]
fn exists_decrease_is_silent_noop() {
    let mut st = MailboxState::new();
    st.register(1, 100);
    st.register(2, 200);
    assert_eq!(st.exists_count, 2);
    st.handle_exists(1);
    // a decreasing EXISTS changes nothing: the EXPUNGE must come separately
    assert_eq!(st.exists_count, 2);
    assert_eq!(st.msn, vec![1, 2]);
    st.handle_exists(2);
    assert_eq!(st.exists_count, 2);
    // growth records the count and clears the MSN index until refetch
    st.handle_exists(5);
    assert_eq!(st.exists_count, 5);
    assert!(st.msn.is_empty());
}

#[test]
fn expunge_shifts_msn_left() {
    let mut st = MailboxState::new();
    st.register(10, 100);
    st.register(11, 101);
    st.register(12, 102);
    let removed = st.handle_expunge(2);
    assert_eq!(removed, Some(101));
    assert_eq!(st.msn, vec![10, 12]);
    assert_eq!(st.exists_count, 2);
    assert_eq!(st.uid_of(101), None);
    // out-of-range sequence numbers resolve nothing
    assert_eq!(st.handle_expunge(9), None);
}

#[test]
fn uidvalidity_change_purges_and_rescans() {
    let mut st = MailboxState::new();
    assert!(!st.check_uidvalidity(1));
    st.register(1, 100);
    st.warm = true;
    assert!(!st.check_uidvalidity(1));
    assert_eq!(st.exists_count, 1);
    // a mismatch purges every hash computed against the old numbering
    assert!(st.check_uidvalidity(2));
    assert_eq!(st.uidvalidity, Some(2));
    assert_eq!(st.exists_count, 0);
    assert!(st.msn.is_empty());
    assert!(!st.warm);
    assert_eq!(st.hash_of(1), None);
}

#[test]
fn msn_rebuild_requires_matching_count() {
    let mut st = MailboxState::new();
    st.handle_exists(3);
    st.rebuild_msn(&vec![7, 8, 9]);
    assert_eq!(st.msn, vec![7, 8, 9]);
    st.rebuild_msn(&vec![7, 8]);
    assert!(st.msn.is_empty());
}

#[test]
fn connect_plan_probes_healthy_stream_once() {
    let mut conn = Connection::new(false);
    assert_eq!(conn.sync_policy, SyncPolicy::Disabled);
    // offline: rebuild
    assert_eq!(conn.connect_plan(0), ConnectStep::Rebuild);
    conn.stream = Some(meli::connection::StreamState::new(
        meli::connection::ImapProtocol::Imap,
        None,
    ));
    conn.mark_ok(1_000);
    // healthy: exactly one NOOP probe, on this call and on the next
    assert_eq!(conn.connect_plan(2_000), ConnectStep::Probe);
    conn.mark_ok(2_000);
    assert_eq!(conn.connect_plan(3_000), ConnectStep::Probe);
    // past the protocol-idle ceiling the stream is treated as dead
    assert_eq!(conn.connect_plan(2_000 + PROTOCOL_TIMEOUT_MS), ConnectStep::Rebuild);
    conn.mark_errored();
    assert_eq!(conn.connect_plan(2_100), ConnectStep::Rebuild);
}

#[test]
fn select_twice_issues_select_once() {
    let mut conn = Connection::new(true);
    assert_eq!(conn.sync_policy, SyncPolicy::Basic);
    conn.stream = Some(meli::connection::StreamState::new(
        meli::connection::ImapProtocol::Imap,
        None,
    ));
    assert_eq!(conn.select_plan(7, false, false, false), SelectPlan::Issue);
    conn.apply_select(7, false);
    // the current mailbox matches the argument after a successful SELECT
    assert_eq!(
        conn.stream.as_ref().unwrap().current_mailbox,
        MailboxSelection::Select(7)
    );
    // re-selecting without force is a no-op: SELECT goes out exactly once
    assert_eq!(conn.select_plan(7, false, false, false), SelectPlan::AlreadyOpen);
    assert_eq!(conn.select_plan(7, true, false, false), SelectPlan::Issue);
    assert_eq!(conn.select_plan(8, false, false, false), SelectPlan::Issue);
    assert_eq!(conn.select_plan(8, false, true, false), SelectPlan::RefuseNoSelect);
    // EXAMINE of the same mailbox is a different mode
    assert_eq!(conn.select_plan(7, false, false, true), SelectPlan::Issue);
}

#[test]
fn mailbox_selection_take() {
    let mut sel = MailboxSelection::Select(9);
    let taken = sel.take();
    assert_eq!(taken, MailboxSelection::Select(9));
    assert_eq!(sel, MailboxSelection::Unselected);
}

#[test]
fn unselect_fallback_name_collides_with_nothing() {
    let paths: Vec<Vec<u8>> = vec![b"INBOX".to_vec(), b"blurdybloop".to_vec()];
    let name = fresh_nonexistent_name(&paths);
    assert!(paths.iter().all(|p| p != &name));
    let caps = Capabilities::from_tokens(vec![b"UNSELECT".to_vec()]);
    assert!(unselect_plan(&caps));
    let caps2 = Capabilities::from_tokens(vec![b"IMAP4rev1".to_vec()]);
    assert!(!unselect_plan(&caps2));
}

#[test]
fn condstore_and_deflate_steps() {
    let caps = Capabilities::from_tokens(vec![
        b"IMAP4rev1".to_vec(),
        b"CONDSTORE".to_vec(),
        b"ENABLE".to_vec(),
        b"COMPRESS=DEFLATE".to_vec(),
    ]);
    assert_eq!(condstore_step(&caps, true, SyncPolicy::Basic), CondstoreStep::Enable);
    assert_eq!(condstore_step(&caps, true, SyncPolicy::Disabled), CondstoreStep::Skip);
    assert_eq!(condstore_step(&caps, false, SyncPolicy::Basic), CondstoreStep::Skip);
    let no_enable = Capabilities::from_tokens(vec![b"CONDSTORE".to_vec()]);
    assert_eq!(condstore_step(&no_enable, true, SyncPolicy::Basic), CondstoreStep::Status);
    assert!(deflate_step(&caps, true));
    assert!(!deflate_step(&caps, false));
    let nocaps = Capabilities::from_tokens(vec![b"IMAP4rev1".to_vec()]);
    assert!(!deflate_step(&nocaps, true));
}

#[test]
fn ext_defaults() {
    let e = ImapExtensionUse::default();
    assert!(e.condstore && e.idle && e.deflate && !e.oauth2);
}

#[test]
fn heartbeat_fires_at_ten_minutes_exactly() {
    let mut st = WatcherState::new(0);
    assert_eq!(st.read_deadline(), HEARTBEAT_MS);
    // one millisecond early: no heartbeat, whatever arrived
    let d = st.idle_step(HEARTBEAT_MS - 1, &WatchEvent::TimedOut);
    assert!(!d.heartbeat);
    // at ten minutes: heartbeat fires, even while data is arriving
    let d2 = st.idle_step(HEARTBEAT_MS, &WatchEvent::Line(b"* 3 EXISTS\r\n".to_vec()));
    assert!(d2.heartbeat);
    assert!(d2.process_line);
    // the DONE reset the clock
    let d3 = st.idle_step(HEARTBEAT_MS + 1, &WatchEvent::TimedOut);
    assert!(!d3.heartbeat);
}

#[test]
fn idle_ignores_chatter_but_processes_data() {
    let mut st = WatcherState::new(0);
    let d = st.idle_step(1, &WatchEvent::Line(b"+ idling\r\n".to_vec()));
    assert!(!d.process_line && !d.reconnect);
    let d2 = st.idle_step(2, &WatchEvent::Line(b"* OK still here\r\n".to_vec()));
    assert!(!d2.process_line);
    let d3 = st.idle_step(3, &WatchEvent::Line(b"* 1 EXISTS\r\n".to_vec()));
    assert!(d3.process_line);
    let d4 = st.idle_step(4, &WatchEvent::StreamEnded);
    assert!(d4.reconnect);
    // peer polls run on their own five-minute clock
    let d5 = st.idle_step(PEER_POLL_MS, &WatchEvent::TimedOut);
    assert!(d5.poll_peers);
}

#[test]
fn poll_mode_ticks_every_three_minutes() {
    let mut st = PollState::new(0);
    assert!(!st.tick(179_999));
    assert!(st.tick(180_000));
    assert!(!st.tick(180_001));
}

#[test]
fn sync_plan_paths() {
    let mut st = MailboxState::new();
    assert_eq!(sync_plan(&st, 5, 0, true), SyncStep::ColdListStatus);
    assert_eq!(sync_plan(&st, 5, 0, false), SyncStep::ColdSearchUnseen);
    apply_cold_counters(&mut st, 5, 2);
    assert!(st.warm);
    assert_eq!(st.exists_count, 5);
    assert_eq!(st.unseen_count, 2);
    assert_eq!(sync_plan(&st, 5, 1, true), SyncStep::SearchRecent);
    assert_eq!(sync_plan(&st, 8, 0, true), SyncStep::FetchNew(5));
    assert_eq!(sync_plan(&st, 5, 0, true), SyncStep::UpToDate);
    assert_eq!(sync_plan(&st, 4, 0, true), SyncStep::UpToDate);
}

#[test]
fn register_envelopes_creates_each_once() {
    let mut st = MailboxState::new();
    let rows = vec![(1u64, 100u64), (2, 200), (1, 100), (3, 300)];
    let created = register_envelopes(&mut st, &rows);
    assert_eq!(created, vec![100, 200, 300]);
    let again = register_envelopes(&mut st, &rows);
    assert!(again.is_empty());
}

#[test]
fn process_untagged_routes_lines() {
    let mut st = MailboxState::new();
    st.register(10, 100);
    st.register(11, 101);
    match process_untagged(&mut st, b"* 1 EXPUNGE\r\n") {
        UntaggedAction::Removed(h) => assert_eq!(h, 100),
        other => panic!("wrong action: {:?}", other),
    }
    assert_eq!(st.msn, vec![11]);
    match process_untagged(&mut st, b"* 7 EXISTS\r\n") {
        UntaggedAction::AppliedExists(n) => assert_eq!(n, 7),
        other => panic!("wrong action: {:?}", other),
    }
    match process_untagged(&mut st, b"* 2 FETCH (FLAGS (\\Seen))\r\n") {
        UntaggedAction::NeedsFetch(n) => assert_eq!(n, 2),
        other => panic!("wrong action: {:?}", other),
    }
    match process_untagged(&mut st, b"* OK chatter\r\n") {
        UntaggedAction::Ignored => {},
        other => panic!("wrong action: {:?}", other),
    }
}

#[test]
fn flag_add_then_remove_restores_unset_flag() {
    let f = Flag::empty();
    // adding then removing a flag that was not set restores the original
    let restored = f.set(FLAG_SEEN).unset(FLAG_SEEN);
    assert_eq!(restored, f);
    assert!(!restored.has(FLAG_SEEN));
    // when the flag was already set, the pair of stores clears it
    let seen = Flag::empty().set(FLAG_SEEN);
    assert!(seen.set(FLAG_SEEN).unset(FLAG_SEEN) != seen);
}

#[test]
fn envelope_hash_depends_on_path_and_uid() {
    let a = generate_envelope_hash(b"INBOX", 1);
    let b = generate_envelope_hash(b"INBOX", 2);
    let c = generate_envelope_hash(b"Sent", 1);
    let a2 = generate_envelope_hash(b"INBOX", 1);
    assert_eq!(a, a2);
    assert!(a != b);
    assert!(a != c);
}

#[test]
fn tag_index_interns_once() {
    let mut tags = TagIndex::new();
    let h1 = tags.intern(b"work");
    let h2 = tags.intern(b"work");
    assert_eq!(h1, h2);
    let h3 = tags.intern(b"home");
    assert!(h1 != h3);
}

#[test]
fn list_entry_parses_flags_separator_and_path() {
    let parsed = list_entry(b"* LIST (\\HasNoChildren) \".\" INBOX.Sent\r\n").unwrap();
    let flags: Vec<&[u8]> = parsed.0.iter().map(|f| f.as_slice()).collect();
    assert_eq!(flags, vec![&b"\\HasNoChildren"[..]]);
    assert_eq!(parsed.1, b'.');
    assert_eq!(parsed.2, b"INBOX.Sent".to_vec());
    let quoted = list_entry(b"* LIST (\\Noselect) \"/\" \"My Folder\"\r\n").unwrap();
    assert_eq!(quoted.2, b"My Folder".to_vec());
    assert!(list_entry(b"* STATUS INBOX ()\r\n").is_none());
}

#[test]
fn mailbox_records_link_parents() {
    let parsed = list_entry(b"* LIST (\\Noselect) \".\" INBOX.Sub\r\n").unwrap();
    let mb = mailbox_from_list(&parsed.0, parsed.1, &parsed.2);
    assert!(mb.no_select);
    assert_eq!(mb.name, b"Sub".to_vec());
    let parent_hash = generate_envelope_hash(b"INBOX", 0);
    assert_eq!(mb.parent, Some(parent_hash));
    let top = list_entry(b"* LIST () \".\" INBOX\r\n").unwrap();
    let mb_top = mailbox_from_list(&top.0, top.1, &top.2);
    assert!(mb_top.parent.is_none());
    assert!(!mb_top.no_select);
    let mut index = MailboxIndex::new();
    index.link_child(mb_top.hash, mb.hash);
    index.insert_mailbox(mb_top);
    index.insert_mailbox(mb);
}

#[test]
fn collection_counts_envelopes() {
    let mut c = Collection::new(vec![envelope(1, 100), envelope(2, 200)]);
    assert_eq!(c.len(), 2);
    assert!(!c.is_empty());
    c.insert(300, envelope(3, 300));
    assert_eq!(c.len(), 3);
    let empty = Collection::new(Vec::new());
    assert!(empty.is_empty());
}

#[test]
fn logger_gates_on_level() {
    let mut logger = Logger::new();
    assert_eq!(get_log_level(&logger), LoggingLevel::INFO);
    log(&mut logger, "kept", LoggingLevel::ERROR);
    log(&mut logger, "dropped", LoggingLevel::TRACE);
    assert_eq!(logger.entries.len(), 1);
    assert_eq!(logger.entries[0], "kept");
    change_log_level(&mut logger, LoggingLevel::TRACE);
    assert_eq!(get_log_level(&logger), LoggingLevel::TRACE);
    log(&mut logger, "now kept", LoggingLevel::TRACE);
    assert_eq!(logger.entries.len(), 2);
}

#[test]
fn mailbox_entry_states() {
    let parsed = list_entry(b"* LIST () \".\" INBOX\r\n").unwrap();
    let mb = mailbox_from_list(&parsed.0, parsed.1, &parsed.2);
    let entry = MailboxEntry::Available(mb);
    assert!(entry.is_available());
    assert!(!entry.is_parsing());
    assert!(entry.as_result().is_ok());
    assert_eq!(entry.unwrap().name, b"INBOX".to_vec());
    let mut failed = MailboxEntry::Failed(ImapError::Bug);
    assert!(!failed.is_available());
    assert_eq!(failed.as_mut_result(), Err(ImapError::Bug));
    let parsed2 = list_entry(b"* LIST () \".\" Work\r\n").unwrap();
    let mb2 = mailbox_from_list(&parsed2.0, parsed2.1, &parsed2.2);
    let mut parsing = MailboxEntry::Parsing(mb2, 1, 10);
    assert!(parsing.is_parsing());
    assert!(parsing.as_mut_result().is_ok());
}

#[test]
fn configuration_defaults() {
    assert_eq!(MailFormat::from_str("maildir"), MailFormat::Maildir);
    assert_eq!(internal_value_false(), ToggleFlag::Internal(false));
    assert_eq!(default_lookup_mechanism(), LOCATE_LOCAL | LOCATE_WKD);
    let pgp = PGPSettings::default();
    assert!(pgp.auto_verify_signatures && pgp.auto_decrypt);
    assert!(!pgp.auto_sign && !pgp.auto_encrypt);
    assert_eq!(pgp.allow_remote_lookup, ToggleFlag::Internal(false));
    let pager = PagerSettingsOverride::default();
    assert!(pager.pager_context.is_none() && pager.url_launcher.is_none());
    let notif = NotificationsSettingsOverride::default();
    assert!(notif.enable.is_none() && notif.sound_file.is_none());
    let composing = ComposingSettingsOverride::default();
    assert!(composing.send_mail.is_none() && composing.embed.is_none());
    let tags = TagsSettingsOverride::default();
    assert!(tags.colors.is_none() && tags.ignore_tags.is_none());
    let pgp_ovr = PGPSettingsOverride::default();
    assert!(pgp_ovr.auto_sign.is_none() && pgp_ovr.remote_lookup_mechanisms.is_none());
}

#[test]
fn scroll_context_and_page_movement() {
    let ctx = ScrollContext::new(20, 100);
    assert!(ctx.has_more_lines);
    let full = ScrollContext::new(100, 100);
    assert!(!full.has_more_lines);
    let mv = PageMovement::PageDown(1);
    match mv {
        PageMovement::PageDown(n) => assert_eq!(n, 1),
        _ => panic!("wrong movement"),
    }
}

#[test]
fn compress_reply_no_keeps_stream_plain() {
    // the server refused: the stream stays uncompressed and usable
    let kind = response_kind(b"M4 NO already compressed\r\n").unwrap();
    assert_eq!(kind, ResponseKind::StatusNo);
    assert!(!compress_upgrade(kind));
    let ok = response_kind(b"M4 OK deflate active\r\n").unwrap();
    assert!(compress_upgrade(ok));
}

#[test]
fn bye_marks_connection_offline() {
    let mut conn = Connection::new(false);
    conn.stream = Some(StreamState::new(ImapProtocol::Imap, None));
    conn.apply_response_status(ResponseKind::StatusOk, 5);
    assert!(conn.online && conn.stream.is_some());
    conn.apply_response_status(ResponseKind::StatusBye, 6);
    assert!(!conn.online && conn.stream.is_none());
}

#[test]
fn partition_routes_unexpected_lines() {
    let buf = b"* 3 EXISTS\r\n* SEARCH 1 2\r\n* FLAGS (\\Seen)\r\nM3 OK done\r\n";
    let (kept, routed) = partition_response(SELECT_REQUIRED, buf);
    let kept: Vec<&[u8]> = kept.iter().map(|l| l.as_slice()).collect();
    let routed: Vec<&[u8]> = routed.iter().map(|l| l.as_slice()).collect();
    assert_eq!(kept, vec![&b"* 3 EXISTS"[..], &b"* FLAGS (\\Seen)"[..]]);
    assert_eq!(routed, vec![&b"* SEARCH 1 2"[..], &b"M3 OK done"[..]]);
}

#[test]
fn new_mail_during_idle_emits_one_create() {
    // the S2 shape: EXISTS wakes the IDLE loop, the fetch rows register,
    // exactly one Create per new message comes out
    let mut watcher = WatcherState::new(0);
    let mut st = MailboxState::new();
    st.warm = true;
    let d = watcher.idle_step(5_000, &WatchEvent::Line(b"* 1 EXISTS\r\n".to_vec()));
    assert!(d.process_line && !d.heartbeat);
    match process_untagged(&mut st, b"* 1 EXISTS\r\n") {
        UntaggedAction::AppliedExists(1) => {},
        other => panic!("wrong action: {:?}", other),
    }
    assert_eq!(st.exists_count, 1);
    let uid = 1u64;
    let hash = generate_envelope_hash(b"INBOX", uid as usize);
    let created = register_envelopes(&mut st, &vec![(uid, hash)]);
    assert_eq!(created, vec![hash]);
    // a replayed fetch row creates nothing further
    let replay = register_envelopes(&mut st, &vec![(uid, hash)]);
    assert!(replay.is_empty());
}

#[test]
fn envelope_seen_flag_and_network_errors() {
    let mut env = envelope(1, 100);
    assert!(!env.is_seen());
    env.flags = env.flags.set(FLAG_SEEN);
    assert!(env.is_seen());
    // only network errors trigger the reconnect path
    assert!(ImapError::Network(meli::types::NetworkError::Timeout).is_network());
    assert!(!ImapError::Bug.is_network());
}

#[test]
fn qresync_needs_condstore() {
    let both = Capabilities::from_tokens(vec![b"QRESYNC".to_vec(), b"CONDSTORE".to_vec()]);
    assert!(qresync_allowed(&both));
    // QRESYNC without CONDSTORE is refused: basic sync is the fallback
    let alone = Capabilities::from_tokens(vec![b"QRESYNC".to_vec()]);
    assert!(!qresync_allowed(&alone));
}

#[test]
fn fetched_rows_become_create_events_once() {
    let mut st = MailboxState::new();
    st.warm = true;
    let rows = vec![
        fetch_row(b"* 1 FETCH (UID 5 FLAGS (\\Seen))\r\n").unwrap(),
        fetch_row(b"* 2 FETCH (UID 6 FLAGS ())\r\n").unwrap(),
        // a replay of UID 5 and a row without a UID both create nothing
        fetch_row(b"* 1 FETCH (UID 5 FLAGS (\\Seen))\r\n").unwrap(),
        fetch_row(b"* 3 FETCH (FLAGS ())\r\n").unwrap(),
    ];
    let created = apply_fetch_rows(&mut st, b"INBOX", &rows);
    assert_eq!(created.len(), 2);
    assert_eq!(created[0].uid, 5);
    assert_eq!(created[1].uid, 6);
    assert_eq!(created[0].hash, generate_envelope_hash(b"INBOX", 5));
    // only the unseen message counted
    assert_eq!(st.unseen_count, 1);
    assert_eq!(st.exists_count, 2);
    assert_eq!(st.uid_of(created[1].hash), Some(6));
}

#[test]
fn no_and_bad_become_error_notices() {
    match status_notice(ResponseKind::StatusNo, "server said no") {
        Some(BackendEvent::Notice(text, level)) => {
            assert_eq!(text, "server said no");
            assert_eq!(level, LoggingLevel::ERROR);
        }
        other => panic!("wrong event: {:?}", other),
    }
    assert!(matches!(
        status_notice(ResponseKind::StatusBad, "x"),
        Some(BackendEvent::Notice(_, _))
    ));
    assert!(status_notice(ResponseKind::StatusOk, "x").is_none());
    assert!(status_notice(ResponseKind::StatusBye, "x").is_none());
}

#[test]
fn vanished_lines_parse() {
    assert_eq!(vanished_line(b"* VANISHED (EARLIER) 41,43\r\n"), Some(vec![41, 43]));
    assert_eq!(vanished_line(b"* VANISHED 5\r\n"), Some(vec![5]));
    // UID ranges are not folded out: the caller falls back to a rescan
    assert_eq!(vanished_line(b"* VANISHED 1:3\r\n"), None);
    assert_eq!(vanished_line(b"* 3 EXPUNGE\r\n"), None);
}

#[test]
fn vanished_uids_leave_the_store() {
    let mut st = MailboxState::new();
    st.register(41, 4100);
    st.register(42, 4200);
    st.register(43, 4300);
    let removed = apply_vanished(&mut st, &vec![41, 43, 99]);
    assert_eq!(removed.len(), 2);
    assert!(matches!(removed[0], meli::envelope::RefreshEventKind::Remove(4100)));
    assert!(matches!(removed[1], meli::envelope::RefreshEventKind::Remove(4300)));
    assert_eq!(st.uid_of(4100), None);
    assert_eq!(st.uid_of(4200), Some(42));
    // the MSN positions shifted under us: the index awaits a rebuild
    assert!(st.msn.is_empty());
    assert_eq!(st.exists_count, 1);
}

#[test]
fn changed_flags_resolve_to_new_flags_events() {
    let mut st = MailboxState::new();
    st.register(17, 1700);
    let rows = vec![
        fetch_row(b"* 1 FETCH (UID 17 MODSEQ (2529) FLAGS (\\Seen))\r\n").unwrap(),
        fetch_row(b"* 2 FETCH (UID 99 FLAGS ())\r\n").unwrap(),
    ];
    let events = flag_change_events(&st, &rows);
    assert_eq!(events.len(), 1);
    match &events[0] {
        meli::envelope::RefreshEventKind::NewFlags(h, f) => {
            assert_eq!(*h, 1700);
            assert!(f.has(FLAG_SEEN));
        }
        other => panic!("wrong event: {:?}", other),
    }
    let cmd = meli::operations::changedsince_command(2528);
    assert_eq!(&cmd[..], &b"FETCH 1:* (FLAGS) (CHANGEDSINCE 2528)"[..]);
}

#[test]
fn mailbox_management_commands() {
    assert_eq!(&create_command(b"Archive/2024")[..], &b"CREATE \"Archive/2024\""[..]);
    assert_eq!(&delete_command(b"Junk")[..], &b"DELETE \"Junk\""[..]);
    assert_eq!(&rename_command(b"Old", b"New")[..], &b"RENAME \"Old\" \"New\""[..]);
    assert_eq!(&subscribe_command(b"Lists", true)[..], &b"SUBSCRIBE \"Lists\""[..]);
    assert_eq!(&subscribe_command(b"Lists", false)[..], &b"UNSUBSCRIBE \"Lists\""[..]);
}

#[test]
fn permissions_follow_read_only() {
    let parsed = list_entry(b"* LIST () \".\" INBOX\r\n").unwrap();
    let mut mb = mailbox_from_list(&parsed.0, parsed.1, &parsed.2);
    // nothing is permitted before a SELECT answers
    assert_eq!(mb.permissions, MailboxPermissions::default());
    assert!(!mb.permissions.set_flags);
    mb.update_permissions(false);
    assert!(mb.permissions.create_messages && mb.permissions.set_flags);
    mb.update_permissions(true);
    assert!(!mb.permissions.delete_messages && !mb.permissions.set_flags);
}

#[test]
fn idle_target_is_the_parentless_inbox() {
    let parsed = list_entry(b"* LIST () \".\" INBOX\r\n").unwrap();
    let mut inbox = mailbox_from_list(&parsed.0, parsed.1, &parsed.2);
    inbox.special_usage = meli::types::SpecialUsageMailbox::Inbox;
    let sub = list_entry(b"* LIST () \".\" INBOX.Sub\r\n").unwrap();
    let sub = mailbox_from_list(&sub.0, sub.1, &sub.2);
    let other = list_entry(b"* LIST () \".\" Work\r\n").unwrap();
    let other = mailbox_from_list(&other.0, other.1, &other.2);
    assert_eq!(idle_target(&vec![other, inbox, sub]), Some(1));
    let lonely = list_entry(b"* LIST () \".\" Work\r\n").unwrap();
    let lonely = mailbox_from_list(&lonely.0, lonely.1, &lonely.2);
    assert_eq!(idle_target(&vec![lonely]), None);
    assert_eq!(mailbox_hash_bytes(b"INBOX"), generate_envelope_hash(b"INBOX", 0));
}

#[test]
fn collection_stores_each_envelope_under_its_hash() {
    let c = Collection::new(vec![envelope(1, 100), envelope(2, 200)]);
    assert_eq!(c.envelopes.get(&100).map(|e| e.uid), Some(1));
    assert_eq!(c.envelopes.get(&200).map(|e| e.uid), Some(2));
    assert!(c.envelopes.get(&300).is_none());
}

#[test]
fn recent_lines_are_ignored_by_the_store() {
    let mut st = MailboxState::new();
    st.register(1, 100);
    match process_untagged(&mut st, b"* 2 RECENT\r\n") {
        UntaggedAction::Ignored => {}
        other => panic!("wrong action: {:?}", other),
    }
    assert_eq!(st.exists_count, 1);
}

#[test]
fn connect_phases_announce_state_changes() {
    match phase_event(ConnectPhase::Tls) {
        BackendEvent::AccountStateChange(m) => assert_eq!(m, "Establishing TLS connection."),
        other => panic!("wrong event: {:?}", other),
    }
    match phase_event(ConnectPhase::Capabilities) {
        BackendEvent::AccountStateChange(m) => {
            assert_eq!(m, "Negotiating server capabilities.")
        }
        other => panic!("wrong event: {:?}", other),
    }
    match phase_event(ConnectPhase::Authentication) {
        BackendEvent::AccountStateChange(m) => assert_eq!(m, "Attempting authentication."),
        other => panic!("wrong event: {:?}", other),
    }
}
