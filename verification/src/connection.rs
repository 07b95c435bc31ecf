//! The connection layer as a state machine: tag counter, mailbox selection
//! slot, command encoding, authentication gating and the reconnect policy.
//! All socket work is the caller's; these functions decide and encode.

use vstd::prelude::*;

use crate::bytes::{upper_seq, views, CR, LF, SP};
use crate::capabilities::Capabilities;
use crate::parser::ascii;
use crate::types::{AuthError, ImapError, NetworkError, ProtocolError};
use crate::MailboxHash;

verus! {

/// Protocol-idle ceiling: a stream silent for this long is treated as dead
/// on the next inspection.
pub const PROTOCOL_TIMEOUT_MS: u64 = 1_680_000;

/// How the per-mailbox cache is reconciled.
#[derive(Debug, Clone, Copy, PartialEq, Eq, Structural)]
pub enum SyncPolicy {
    Disabled,
    Basic,
    Condstore,
    CondstoreQresync,
}

/// Which wire protocol the stream speaks.
#[derive(Debug, Clone, Copy, PartialEq, Eq, Structural)]
pub enum ImapProtocol {
    Imap,
    ManageSieve,
}

/// Which optional extensions the configuration asks for.
#[derive(Debug, Clone, Copy, PartialEq, Eq, Structural)]
pub struct ImapExtensionUse {
    pub condstore: bool,
    pub idle: bool,
    pub deflate: bool,
    pub oauth2: bool,
}

impl Default for ImapExtensionUse {
    fn default() -> (r: Self)
        ensures
            r.condstore,
            r.idle,
            r.deflate,
            !r.oauth2,
    {
        ImapExtensionUse { condstore: true, idle: true, deflate: true, oauth2: false }
    }
}

/// The mailbox the stream currently has open, if any.
#[derive(Debug, Clone, Copy, PartialEq, Eq, Structural)]
pub enum MailboxSelection {
    Unselected,
    Select(MailboxHash),
    Examine(MailboxHash),
}

impl MailboxSelection {
    /// Take the selection out, leaving `None` behind.
    pub fn take(&mut self) -> (r: Self)
        ensures
            r == *old(self),
            *final(self) == MailboxSelection::Unselected,
    {
        let r = *self;
        *self = MailboxSelection::Unselected;
        r
    }
}

/// Configuration of one server connection.
#[derive(Debug, Clone)]
pub struct ImapServerConf {
    pub server_hostname: Vec<u8>,
    pub server_port: u16,
    pub server_username: Vec<u8>,
    pub server_password: Vec<u8>,
    pub use_tls: bool,
    pub use_starttls: bool,
    pub danger_accept_invalid_certs: bool,
    pub timeout_ms: Option<u64>,
    pub protocol: ImapProtocol,
    pub extension_use: ImapExtensionUse,
}

/// Decimal digits of `n`, most significant first.
pub open spec fn dec_digits(n: int) -> Seq<u8>
    recommends
        n >= 0,
    decreases n,
{
    if n < 10 {
        seq![(48 + if n >= 0 { n } else { 0 }) as u8]
    } else {
        dec_digits(n / 10).push((48 + n % 10) as u8)
    }
}

/// Render `n` in decimal.
pub fn usize_to_dec(n: usize) -> (r: Vec<u8>)
    ensures
        r@ == dec_digits(n as int),
    decreases n,
{
    if n < 10 {
        let mut v: Vec<u8> = Vec::new();
        v.push(48 + (n as u8));
        proof {
            assert(v@ =~= dec_digits(n as int));
        }
        v
    } else {
        let mut v = usize_to_dec(n / 10);
        v.push(48 + ((n % 10) as u8));
        v
    }
}

/// Render a 64-bit value in decimal.
pub fn u64_to_dec(n: u64) -> (r: Vec<u8>)
    ensures
        r@ == dec_digits(n as int),
    decreases n,
{
    if n < 10 {
        let mut v: Vec<u8> = Vec::new();
        v.push(48 + (n as u8));
        proof {
            assert(v@ =~= dec_digits(n as int));
        }
        v
    } else {
        let mut v = u64_to_dec(n / 10);
        v.push(48 + ((n % 10) as u8));
        v
    }
}

/// `M<n> `: the tag prefix of command number `n`.
pub open spec fn tag_bytes(n: int) -> Seq<u8> {
    seq![77u8] + dec_digits(n) + seq![SP]
}

/// The framer/parser side of one open stream: the tag counter and the
/// current mailbox slot.  The byte stream itself lives with the caller.
#[derive(Debug)]
pub struct StreamState {
    pub cmd_id: usize,
    pub protocol: ImapProtocol,
    pub current_mailbox: MailboxSelection,
    pub timeout_ms: Option<u64>,
}

impl StreamState {
    /// A fresh stream: tags start at 1, nothing selected.
    pub fn new(protocol: ImapProtocol, timeout_ms: Option<u64>) -> (r: StreamState)
        ensures
            r.cmd_id == 1,
            r.protocol == protocol,
            r.current_mailbox == MailboxSelection::Unselected,
            r.timeout_ms == timeout_ms,
    {
        StreamState { cmd_id: 1, protocol, current_mailbox: MailboxSelection::Unselected, timeout_ms }
    }

    /// Encode one command for the wire.  Tags are strictly increasing: each
    /// IMAP command consumes the current tag and advances the counter by one.
    pub fn encode_command(&mut self, cmd: &[u8]) -> (r: Vec<u8>)
        requires
            old(self).cmd_id < usize::MAX,
        ensures
            final(self).protocol == old(self).protocol,
            final(self).current_mailbox == old(self).current_mailbox,
            final(self).timeout_ms == old(self).timeout_ms,
            old(self).protocol is Imap ==> r@ == tag_bytes(old(self).cmd_id as int) + cmd@ + seq![
                CR,
                LF,
            ] && final(self).cmd_id == old(self).cmd_id + 1,
            old(self).protocol is ManageSieve ==> r@ == cmd@ + seq![CR, LF] && final(self).cmd_id
                == old(self).cmd_id,
    {
        let mut out: Vec<u8> = Vec::new();
        match self.protocol {
            ImapProtocol::Imap => {
                out.push(77);
                let digits = u64_to_dec(self.cmd_id as u64);
                let mut i: usize = 0;
                while i < digits.len()
                    invariant
                        0 <= i <= digits@.len(),
                        out@ == seq![77u8] + digits@.subrange(0, i as int),
                    decreases digits.len() - i,
                {
                    out.push(digits[i]);
                    proof {
                        assert(out@ =~= seq![77u8] + digits@.subrange(0, i + 1));
                    }
                    i += 1;
                }
                out.push(SP);
                proof {
                    assert(digits@.subrange(0, digits@.len() as int) =~= digits@);
                    assert(out@ =~= tag_bytes(self.cmd_id as int));
                }
                self.cmd_id = self.cmd_id + 1;
            },
            ImapProtocol::ManageSieve => {},
        }
        let ghost head = out@;
        let mut j: usize = 0;
        while j < cmd.len()
            invariant
                0 <= j <= cmd@.len(),
                out@ == head + cmd@.subrange(0, j as int),
            decreases cmd.len() - j,
        {
            out.push(cmd[j]);
            proof {
                assert(out@ =~= head + cmd@.subrange(0, j + 1));
            }
            j += 1;
        }
        out.push(CR);
        out.push(LF);
        proof {
            assert(cmd@.subrange(0, cmd@.len() as int) =~= cmd@);
            assert(out@ =~= head + cmd@ + seq![CR, LF]);
        }
        out
    }

    /// The tag prefix a reader must watch for: the tag of the command sent
    /// last (`M<cmd_id - 1> `).
    pub fn expected_tag(&self) -> (r: Vec<u8>)
        requires
            self.cmd_id >= 1,
        ensures
            self.protocol is Imap ==> r@ == tag_bytes(self.cmd_id - 1),
            self.protocol is ManageSieve ==> r@ == Seq::<u8>::empty(),
    {
        match self.protocol {
            ImapProtocol::Imap => {
                let mut out: Vec<u8> = Vec::new();
                out.push(77);
                let digits = u64_to_dec((self.cmd_id - 1) as u64);
                let mut i: usize = 0;
                while i < digits.len()
                    invariant
                        0 <= i <= digits@.len(),
                        out@ == seq![77u8] + digits@.subrange(0, i as int),
                    decreases digits.len() - i,
                {
                    out.push(digits[i]);
                    proof {
                        assert(out@ =~= seq![77u8] + digits@.subrange(0, i + 1));
                    }
                    i += 1;
                }
                out.push(SP);
                proof {
                    assert(digits@.subrange(0, digits@.len() as int) =~= digits@);
                    assert(out@ =~= tag_bytes(self.cmd_id - 1));
                }
                out
            },
            ImapProtocol::ManageSieve => {
                let out: Vec<u8> = Vec::new();
                proof {
                    assert(out@ =~= Seq::<u8>::empty());
                }
                out
            },
        }
    }
}

/// Append CRLF: the wire form of a literal payload or a raw line.
pub fn encode_raw(data: &[u8]) -> (r: Vec<u8>)
    ensures
        r@ == data@ + seq![CR, LF],
{
    let mut out = crate::parser::sub_bytes(data, 0, data.len());
    proof {
        assert(out@ =~= data@);
    }
    out.push(CR);
    out.push(LF);
    proof {
        assert(out@ =~= data@ + seq![CR, LF]);
    }
    out
}

/// Bytes that the quoted-string form of a user name must escape.
pub open spec fn needs_escape(b: u8) -> bool {
    b == 92 || b == 34 || b == 123 || b == 125
}

/// The user name with backslash, double quote and braces backslash-prefixed.
pub open spec fn escaped(s: Seq<u8>) -> Seq<u8>
    decreases s.len(),
{
    if s.len() == 0 {
        Seq::empty()
    } else {
        escaped(s.drop_last()) + (if needs_escape(s.last()) {
            seq![92u8, s.last()]
        } else {
            seq![s.last()]
        })
    }
}

/// The LOGIN command: quoted, escaped user name, and a literal announcement
/// for the password, whose bytes follow unescaped after the continuation.
pub open spec fn login_line(user: Seq<u8>, pass_len: int) -> Seq<u8> {
    ascii("LOGIN \""@) + escaped(user) + ascii("\" {"@) + dec_digits(pass_len) + seq![125u8]
}

/// Build `LOGIN "<escaped user>" {<password length>}`.  The password itself
/// is sent as a literal — arbitrary bytes, no escaping — via `encode_raw`
/// after the server's continuation.
pub fn login_command(user: &[u8], pass_len: usize) -> (r: Vec<u8>)
    ensures
        r@ == login_line(user@, pass_len as int),
{
    proof {
        reveal_strlit("LOGIN \"");
        reveal_strlit("\" {");
    }
    let mut out: Vec<u8> = Vec::new();
    let head: [u8; 7] = [76, 79, 71, 73, 78, 32, 34];
    proof {
        assert(head@ =~= ascii("LOGIN \""@));
    }
    let mut i: usize = 0;
    while i < 7
        invariant
            0 <= i <= 7,
            head@ == ascii("LOGIN \""@),
            out@ == head@.subrange(0, i as int),
        decreases 7 - i,
    {
        out.push(head[i]);
        proof {
            assert(out@ =~= head@.subrange(0, i + 1));
        }
        i += 1;
    }
    proof {
        assert(out@ =~= ascii("LOGIN \""@));
    }
    let mut j: usize = 0;
    while j < user.len()
        invariant
            0 <= j <= user@.len(),
            out@ == ascii("LOGIN \""@) + escaped(user@.subrange(0, j as int)),
        decreases user.len() - j,
    {
        let b = user[j];
        if b == 92 || b == 34 || b == 123 || b == 125 {
            out.push(92);
        }
        out.push(b);
        proof {
            let p = user@.subrange(0, j + 1);
            assert(p.drop_last() =~= user@.subrange(0, j as int));
            assert(p.last() == b);
            assert(out@ =~= ascii("LOGIN \""@) + escaped(p));
        }
        j += 1;
    }
    proof {
        assert(user@.subrange(0, user@.len() as int) =~= user@);
    }
    let mid: [u8; 3] = [34, 32, 123];
    proof {
        assert(mid@ =~= ascii("\" {"@));
    }
    out.push(34);
    out.push(32);
    out.push(123);
    let ghost before_digits = out@;
    proof {
        assert(before_digits =~= ascii("LOGIN \""@) + escaped(user@) + ascii("\" {"@));
    }
    let digits = usize_to_dec(pass_len);
    let mut k: usize = 0;
    while k < digits.len()
        invariant
            0 <= k <= digits@.len(),
            out@ == before_digits + digits@.subrange(0, k as int),
        decreases digits.len() - k,
    {
        out.push(digits[k]);
        proof {
            assert(out@ =~= before_digits + digits@.subrange(0, k + 1));
        }
        k += 1;
    }
    out.push(125);
    proof {
        assert(digits@.subrange(0, digits@.len() as int) =~= digits@);
        assert(out@ =~= login_line(user@, pass_len as int));
    }
    out
}

/// How the client should authenticate, as decided from the capabilities.
#[derive(Debug, Clone, Copy, PartialEq, Eq, Structural)]
pub enum AuthMethod {
    /// `LOGIN` with the password as a literal.
    Login,
    /// `AUTHENTICATE XOAUTH2 <token>`.
    Xoauth2,
}

/// Spec form of a capability membership test.
pub open spec fn has_cap(caps: Capabilities, name: Seq<char>) -> bool {
    caps.set_view().contains(upper_seq(ascii(name)))
}

/// Decide how — or whether — to authenticate.  `IMAP4rev1` is required;
/// `LOGINDISABLED` refuses password login outright, so no `LOGIN` is ever
/// sent then; XOAUTH2 is used only when asked for and advertised.
pub fn auth_plan(caps: &Capabilities, use_oauth2: bool) -> (r: Result<AuthMethod, ImapError>)
    ensures
        !has_cap(*caps, "IMAP4rev1"@) ==> r == Result::<AuthMethod, ImapError>::Err(
            ImapError::Protocol(ProtocolError::NotImap4rev1),
        ),
        has_cap(*caps, "IMAP4rev1"@) && has_cap(*caps, "LOGINDISABLED"@) ==> r == Result::<
            AuthMethod,
            ImapError,
        >::Err(ImapError::Authentication(AuthError::LoginDisabled)),
        has_cap(*caps, "IMAP4rev1"@) && !has_cap(*caps, "LOGINDISABLED"@) && use_oauth2 && has_cap(
            *caps,
            "AUTH=XOAUTH2"@,
        ) ==> r == Result::<AuthMethod, ImapError>::Ok(AuthMethod::Xoauth2),
        has_cap(*caps, "IMAP4rev1"@) && !has_cap(*caps, "LOGINDISABLED"@) && use_oauth2 && !has_cap(
            *caps,
            "AUTH=XOAUTH2"@,
        ) ==> r == Result::<AuthMethod, ImapError>::Err(
            ImapError::Authentication(AuthError::OauthMissing),
        ),
        has_cap(*caps, "IMAP4rev1"@) && !has_cap(*caps, "LOGINDISABLED"@) && !use_oauth2 ==> r
            == Result::<AuthMethod, ImapError>::Ok(AuthMethod::Login),
{
    proof {
        reveal_strlit("IMAP4rev1");
        reveal_strlit("LOGINDISABLED");
        reveal_strlit("AUTH=XOAUTH2");
    }
    let rev1: [u8; 9] = [73, 77, 65, 80, 52, 114, 101, 118, 49];
    let login_disabled: [u8; 13] = [76, 79, 71, 73, 78, 68, 73, 83, 65, 66, 76, 69, 68];
    let xoauth2: [u8; 12] = [65, 85, 84, 72, 61, 88, 79, 65, 85, 84, 72, 50];
    proof {
        assert(rev1@ =~= ascii("IMAP4rev1"@));
        assert(login_disabled@ =~= ascii("LOGINDISABLED"@));
        assert(xoauth2@ =~= ascii("AUTH=XOAUTH2"@));
    }
    if !caps.has(rev1.as_slice()) {
        return Err(ImapError::Protocol(ProtocolError::NotImap4rev1));
    }
    if caps.has(login_disabled.as_slice()) {
        return Err(ImapError::Authentication(AuthError::LoginDisabled));
    }
    if use_oauth2 {
        if caps.has(xoauth2.as_slice()) {
            Ok(AuthMethod::Xoauth2)
        } else {
            Err(ImapError::Authentication(AuthError::OauthMissing))
        }
    } else {
        Ok(AuthMethod::Login)
    }
}

/// On `LOGINDISABLED`, no `LOGIN` is ever sent: the authentication plan is
/// never password login.
pub proof fn lemma_no_login_when_disabled(
    caps: Capabilities,
    use_oauth2: bool,
    r: Result<AuthMethod, ImapError>,
)
    requires
        has_cap(caps, "LOGINDISABLED"@),
        !has_cap(caps, "IMAP4rev1"@) ==> r == Result::<AuthMethod, ImapError>::Err(
            ImapError::Protocol(ProtocolError::NotImap4rev1),
        ),
        has_cap(caps, "IMAP4rev1"@) ==> r == Result::<AuthMethod, ImapError>::Err(
            ImapError::Authentication(AuthError::LoginDisabled),
        ),
    ensures
        r != Result::<AuthMethod, ImapError>::Ok(AuthMethod::Login),
{
}

/// A STARTTLS failure, diagnosed.  On port 993 — the implicit-TLS port —
/// the advice is to disable `use_starttls`.
pub fn starttls_diagnostic(port: u16) -> (r: (ImapError, String))
    ensures
        r.0 == ImapError::Network(NetworkError::TlsHandshake),
        port == 993 ==> r.1@
            == "STARTTLS failed. Server port is set to 993, which normally uses TLS. Maybe try disabling use_starttls."@,
        port != 993 ==> r.1@ == "STARTTLS failed. Is the connection already encrypted?"@,
{
    if port == 993 {
        (
            ImapError::Network(NetworkError::TlsHandshake),
            "STARTTLS failed. Server port is set to 993, which normally uses TLS. Maybe try disabling use_starttls.".to_owned(),
        )
    } else {
        (
            ImapError::Network(NetworkError::TlsHandshake),
            "STARTTLS failed. Is the connection already encrypted?".to_owned(),
        )
    }
}

/// The milestones of building a connection; each is announced to the
/// consumer as an account state change.
#[derive(Debug, Clone, Copy, PartialEq, Eq, Structural)]
pub enum ConnectPhase {
    /// The TLS layer is being established.
    Tls,
    /// The server's capabilities are being negotiated.
    Capabilities,
    /// Authentication is being attempted.
    Authentication,
}

/// The progress message announced at each connection milestone.
pub fn phase_event(p: ConnectPhase) -> (r: crate::envelope::BackendEvent)
    ensures
        r is AccountStateChange,
        p == ConnectPhase::Tls ==> r->AccountStateChange_0@ == "Establishing TLS connection."@,
        p == ConnectPhase::Capabilities ==> r->AccountStateChange_0@
            == "Negotiating server capabilities."@,
        p == ConnectPhase::Authentication ==> r->AccountStateChange_0@
            == "Attempting authentication."@,
{
    match p {
        ConnectPhase::Tls => crate::envelope::BackendEvent::AccountStateChange(
            "Establishing TLS connection.".to_owned(),
        ),
        ConnectPhase::Capabilities => crate::envelope::BackendEvent::AccountStateChange(
            "Negotiating server capabilities.".to_owned(),
        ),
        ConnectPhase::Authentication => crate::envelope::BackendEvent::AccountStateChange(
            "Attempting authentication.".to_owned(),
        ),
    }
}

/// What `connect()` must do next.
#[derive(Debug, Clone, Copy, PartialEq, Eq, Structural)]
pub enum ConnectStep {
    /// The stream looks healthy: probe it with exactly one NOOP round trip.
    Probe,
    /// No usable stream: tear down and rebuild from scratch.
    Rebuild,
}

/// One logical connection: the stream state when online, the sync policy,
/// and the online clock.
#[derive(Debug)]
pub struct Connection {
    pub stream: Option<StreamState>,
    pub sync_policy: SyncPolicy,
    pub online: bool,
    pub last_ok_ms: u64,
}

impl Connection {
    /// A healthy connection: a stream is present, the last I/O succeeded,
    /// and the protocol-idle ceiling has not passed.
    pub open spec fn healthy(self, now_ms: u64) -> bool {
        &&& self.stream is Some
        &&& self.online
        &&& self.last_ok_ms <= now_ms < self.last_ok_ms + PROTOCOL_TIMEOUT_MS
    }

    /// Connections are created offline; the first `connect()` builds the
    /// stream and authenticates.
    pub fn new(keep_offline_cache: bool) -> (r: Connection)
        ensures
            r.stream is None,
            !r.online,
            r.sync_policy == (if keep_offline_cache {
                SyncPolicy::Basic
            } else {
                SyncPolicy::Disabled
            }),
    {
        Connection {
            stream: None,
            sync_policy: if keep_offline_cache {
                SyncPolicy::Basic
            } else {
                SyncPolicy::Disabled
            },
            online: false,
            last_ok_ms: 0,
        }
    }

    /// Decide what `connect()` does: a healthy stream gets exactly one NOOP
    /// probe; anything else is rebuilt.
    pub fn connect_plan(&self, now_ms: u64) -> (r: ConnectStep)
        ensures
            r == ConnectStep::Probe <==> self.healthy(now_ms),
            r == ConnectStep::Probe || r == ConnectStep::Rebuild,
    {
        match &self.stream {
            Some(_) => {
                if self.online && self.last_ok_ms <= now_ms && now_ms - self.last_ok_ms
                    < PROTOCOL_TIMEOUT_MS {
                    ConnectStep::Probe
                } else {
                    ConnectStep::Rebuild
                }
            },
            None => ConnectStep::Rebuild,
        }
    }

    /// Record a successful I/O round trip.
    pub fn mark_ok(&mut self, now_ms: u64)
        ensures
            final(self).stream == old(self).stream,
            final(self).sync_policy == old(self).sync_policy,
            final(self).online,
            final(self).last_ok_ms == now_ms,
    {
        self.online = true;
        self.last_ok_ms = now_ms;
    }

    /// Record a failed I/O: the stream is dropped and the connection goes
    /// offline, so the next operation rebuilds it.
    pub fn mark_errored(&mut self)
        ensures
            final(self).stream is None,
            !final(self).online,
            final(self).sync_policy == old(self).sync_policy,
            final(self).last_ok_ms == old(self).last_ok_ms,
    {
        self.stream = None;
        self.online = false;
    }

    /// `connect()` is idempotent on a healthy stream: the first call probes
    /// with one NOOP and records the success; the second call, within the
    /// protocol-idle ceiling, again decides to probe — one NOOP round trip,
    /// no rebuild.
    pub proof fn lemma_connect_idempotent(self, now1: u64, now2: u64)
        requires
            self.healthy(now1),
            now1 <= now2 < now1 + PROTOCOL_TIMEOUT_MS,
        ensures
            ({
                let after = Connection { online: true, last_ok_ms: now1, ..self };
                after.healthy(now2)
            }),
    {
    }
}

/// What `select_mailbox` / `examine_mailbox` must do next.
#[derive(Debug, Clone, Copy, PartialEq, Eq, Structural)]
pub enum SelectPlan {
    /// No stream: the caller must connect first.
    Offline,
    /// The mailbox is already open in the wanted mode: no change, no I/O.
    AlreadyOpen,
    /// The mailbox is marked `\NoSelect`: refuse.
    RefuseNoSelect,
    /// Issue the SELECT or EXAMINE command.
    Issue,
}

/// Spec twin of `select_plan`.
pub open spec fn spec_select_plan(
    c: Connection,
    h: MailboxHash,
    force: bool,
    no_select: bool,
    examine: bool,
) -> SelectPlan {
    if c.stream is None {
        SelectPlan::Offline
    } else if !force && c.stream->Some_0.current_mailbox == (if examine {
        MailboxSelection::Examine(h)
    } else {
        MailboxSelection::Select(h)
    }) {
        SelectPlan::AlreadyOpen
    } else if no_select {
        SelectPlan::RefuseNoSelect
    } else {
        SelectPlan::Issue
    }
}

impl Connection {
    /// Decide what selecting (or examining) mailbox `h` does.  Without
    /// `force`, re-selecting the mailbox that is already open in the same
    /// mode is a no-op: SELECT is issued exactly once.
    pub fn select_plan(&self, h: MailboxHash, force: bool, no_select: bool, examine: bool) -> (r:
        SelectPlan)
        ensures
            r == spec_select_plan(*self, h, force, no_select, examine),
    {
        match &self.stream {
            None => SelectPlan::Offline,
            Some(st) => {
                let wanted = if examine {
                    MailboxSelection::Examine(h)
                } else {
                    MailboxSelection::Select(h)
                };
                if !force && st.current_mailbox == wanted {
                    SelectPlan::AlreadyOpen
                } else if no_select {
                    SelectPlan::RefuseNoSelect
                } else {
                    SelectPlan::Issue
                }
            },
        }
    }

    /// Record that the server accepted SELECT or EXAMINE of `h`: the current
    /// mailbox now matches the argument.
    pub fn apply_select(&mut self, h: MailboxHash, examine: bool)
        requires
            old(self).stream is Some,
        ensures
            final(self).stream is Some,
            final(self).stream->Some_0.current_mailbox == (if examine {
                MailboxSelection::Examine(h)
            } else {
                MailboxSelection::Select(h)
            }),
            final(self).stream->Some_0.cmd_id == old(self).stream->Some_0.cmd_id,
            final(self).stream->Some_0.protocol == old(self).stream->Some_0.protocol,
            final(self).stream->Some_0.timeout_ms == old(self).stream->Some_0.timeout_ms,
            final(self).sync_policy == old(self).sync_policy,
            final(self).online == old(self).online,
            final(self).last_ok_ms == old(self).last_ok_ms,
    {
        match &mut self.stream {
            Some(st) => {
                st.current_mailbox = if examine {
                    MailboxSelection::Examine(h)
                } else {
                    MailboxSelection::Select(h)
                };
            },
            None => {},
        }
    }
}

/// `select_mailbox(h, force == false)` twice in a row issues SELECT exactly
/// once: after the first select is applied, the second plan is a no-op.
pub proof fn lemma_select_idempotent(c: Connection, h: MailboxHash, no_select: bool)
    requires
        c.stream is Some,
        c.stream->Some_0.current_mailbox == MailboxSelection::Select(h),
    ensures
        spec_select_plan(c, h, false, no_select, false) == SelectPlan::AlreadyOpen,
{
}

/// Choose how to leave the selected mailbox: `UNSELECT` when advertised,
/// else the fallback of selecting a nonexistent mailbox whose failure is
/// treated as success.
pub fn unselect_plan(caps: &Capabilities) -> (r: bool)
    ensures
        r == has_cap(*caps, "UNSELECT"@),
{
    proof {
        reveal_strlit("UNSELECT");
    }
    let unselect: [u8; 8] = [85, 78, 83, 69, 76, 69, 67, 84];
    proof {
        assert(unselect@ =~= ascii("UNSELECT"@));
    }
    caps.has(unselect.as_slice())
}

/// A mailbox name that matches none of the given paths: strictly longer
/// than every one of them.
pub fn fresh_nonexistent_name(paths: &Vec<Vec<u8>>) -> (r: Vec<u8>)
    requires
        forall|i: int| 0 <= i < paths@.len() ==> #[trigger] views(paths@)[i].len() < usize::MAX,
    ensures
        forall|i: int| 0 <= i < paths@.len() ==> #[trigger] views(paths@)[i] != r@,
        r@.len() >= 1,
{
    let mut max: usize = 0;
    let mut i: usize = 0;
    while i < paths.len()
        invariant
            0 <= i <= paths@.len(),
            forall|j: int| 0 <= j < paths@.len() ==> #[trigger] views(paths@)[j].len() < usize::MAX,
            forall|j: int| 0 <= j < i ==> #[trigger] views(paths@)[j].len() <= max,
            max < usize::MAX,
        decreases paths.len() - i,
    {
        proof {
            assert(views(paths@)[i as int] == paths@[i as int]@);
        }
        if paths[i].len() > max {
            max = paths[i].len();
        }
        i += 1;
    }
    let mut name: Vec<u8> = Vec::new();
    let mut k: usize = 0;
    while k < max
        invariant
            0 <= k <= max,
            name@.len() == k,
        decreases max - k,
    {
        name.push(112);
        k += 1;
    }
    name.push(112);
    assert forall|j: int| 0 <= j < paths@.len() implies #[trigger] views(paths@)[j] != name@ by {
        assert(views(paths@)[j].len() <= max);
        assert(name@.len() == max + 1);
    }
    name
}

/// Whether to upgrade the session to CONDSTORE, and how.
#[derive(Debug, Clone, Copy, PartialEq, Eq, Structural)]
pub enum CondstoreStep {
    /// Not advertised, not wanted, or sync is off: do nothing.
    Skip,
    /// `ENABLE CONDSTORE`.
    Enable,
    /// The `STATUS` fallback that carries `HIGHESTMODSEQ`.
    Status,
}

/// Decide the CONDSTORE upgrade after authentication.
pub fn condstore_step(caps: &Capabilities, use_condstore: bool, policy: SyncPolicy) -> (r:
    CondstoreStep)
    ensures
        r == CondstoreStep::Skip <==> !(has_cap(*caps, "CONDSTORE"@) && use_condstore && policy
            != SyncPolicy::Disabled),
        r != CondstoreStep::Skip ==> (r == CondstoreStep::Enable <==> has_cap(*caps, "ENABLE"@)),
{
    proof {
        reveal_strlit("CONDSTORE");
        reveal_strlit("ENABLE");
    }
    let condstore: [u8; 9] = [67, 79, 78, 68, 83, 84, 79, 82, 69];
    let enable: [u8; 6] = [69, 78, 65, 66, 76, 69];
    proof {
        assert(condstore@ =~= ascii("CONDSTORE"@));
        assert(enable@ =~= ascii("ENABLE"@));
    }
    let wanted = match policy {
        SyncPolicy::Disabled => false,
        _ => true,
    };
    if caps.has(condstore.as_slice()) && use_condstore && wanted {
        if caps.has(enable.as_slice()) {
            CondstoreStep::Enable
        } else {
            CondstoreStep::Status
        }
    } else {
        CondstoreStep::Skip
    }
}

impl Connection {
    /// Record a completed CONDSTORE upgrade.
    pub fn apply_condstore(&mut self)
        ensures
            final(self).sync_policy == SyncPolicy::Condstore,
            final(self).stream == old(self).stream,
            final(self).online == old(self).online,
            final(self).last_ok_ms == old(self).last_ok_ms,
    {
        self.sync_policy = SyncPolicy::Condstore;
    }
}

/// Apply the server's reply to `COMPRESS DEFLATE`: only a tagged OK wraps
/// the stream; NO, BAD or BYE leave it uncompressed and change nothing
/// else, so every later operation proceeds as before.
pub fn compress_upgrade(kind: crate::response::ResponseKind) -> (wrap: bool)
    ensures
        wrap == (kind is StatusOk),
{
    match kind {
        crate::response::ResponseKind::StatusOk => true,
        _ => false,
    }
}

impl Connection {
    /// Apply a tagged response's status to the connection: BYE marks the
    /// stream offline, so the next operation reconnects; every other
    /// status leaves the connection as it is.
    pub fn apply_response_status(&mut self, kind: crate::response::ResponseKind, now_ms: u64)
        ensures
            kind is StatusBye ==> final(self).stream is None && !final(self).online,
            !(kind is StatusBye) ==> final(self).stream == old(self).stream && final(self).online
                && final(self).last_ok_ms == now_ms,
            final(self).sync_policy == old(self).sync_policy,
    {
        match kind {
            crate::response::ResponseKind::StatusBye => {
                self.mark_errored();
            },
            _ => {
                self.mark_ok(now_ms);
            },
        }
    }
}

/// Whether the QRESYNC upgrade may be used: only when CONDSTORE is also
/// advertised; a server offering QRESYNC alone falls back to basic sync.
pub fn qresync_allowed(caps: &Capabilities) -> (r: bool)
    ensures
        r == (has_cap(*caps, "QRESYNC"@) && has_cap(*caps, "CONDSTORE"@)),
{
    proof {
        reveal_strlit("QRESYNC");
        reveal_strlit("CONDSTORE");
    }
    let qresync: [u8; 7] = [81, 82, 69, 83, 89, 78, 67];
    let condstore: [u8; 9] = [67, 79, 78, 68, 83, 84, 79, 82, 69];
    proof {
        assert(qresync@ =~= ascii("QRESYNC"@));
        assert(condstore@ =~= ascii("CONDSTORE"@));
    }
    caps.has(qresync.as_slice()) && caps.has(condstore.as_slice())
}

/// Decide whether to issue `COMPRESS DEFLATE` after authentication.
pub fn deflate_step(caps: &Capabilities, use_deflate: bool) -> (r: bool)
    ensures
        r == (has_cap(*caps, "COMPRESS=DEFLATE"@) && use_deflate),
{
    proof {
        reveal_strlit("COMPRESS=DEFLATE");
    }
    let deflate: [u8; 16] = [67, 79, 77, 80, 82, 69, 83, 83, 61, 68, 69, 70, 76, 65, 84, 69];
    proof {
        assert(deflate@ =~= ascii("COMPRESS=DEFLATE"@));
    }
    caps.has(deflate.as_slice()) && use_deflate
}

} // verus!
