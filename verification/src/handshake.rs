//! The handshake with peer applications: who is open, and what was agreed.
//!
//! The handshake counts packets. A packet whose count is above zero opens the
//! session, and a packet whose count is below two is answered with the next
//! count. Each packet may carry the sender's capabilities.
//!
//! Points in time are nanoseconds on a clock that never goes back; the caller
//! reads the clock.

pub use crate::caps::NegotiatedCaps;

use crate::caps::{
    advertised, agreed, caps_view, law_agreement_is_within_bounds, local_caps, local_caps_value,
    negotiate, parse_caps, within_bounds, CapsView, PeerCaps, LOCAL_MAX_CHUNK_SIZE, MIN_CHUNK_SIZE,
};
use crate::codec::{Codecs, CodecsView};
use crate::json::{entries_view, found, lemma_no_entries, put, Json, JsonView};
use crate::text::same_text;
use vstd::prelude::*;

verus! {

/// The tag of handshake packets.
pub const HS_TAG: &'static str = "__hs__";

/// How long a session stays open after its last packet: three seconds.
pub const HS_TIMEOUT: u64 = 3_000_000_000;

/// A peer: the device address and the application on it.
pub type PeerKey = (Seq<char>, Seq<char>);

/// What is known of one peer.
#[verifier::ext_equal]
pub struct SessionView {
    /// Whether the peer is taken to be open.
    pub open: bool,
    /// When a packet was last exchanged with it.
    pub last_seen: u64,
    /// What was agreed on; `None` until the peer has advertised something.
    pub caps: Option<CapsView>,
}

/// The sessions, by peer.
pub type Sessions = Map<PeerKey, SessionView>;

#[derive(Debug)]
struct Session {
    open: bool,
    last_seen: u64,
    caps: Option<NegotiatedCaps>,
}

#[derive(Debug)]
struct Entry {
    addr: String,
    pkg: String,
    session: Session,
}

/// The sessions with all peers.
#[derive(Debug)]
pub struct HandshakeState {
    entries: Vec<Entry>,
}

impl View for Session {
    type V = SessionView;

    closed spec fn view(&self) -> SessionView {
        SessionView {
            open: self.open,
            last_seen: self.last_seen,
            caps: caps_view(self.caps),
        }
    }
}

impl Entry {
    spec fn key(self) -> PeerKey {
        (self.addr@, self.pkg@)
    }
}

/// The sessions that some entries hold.
spec fn entry_map(entries: Seq<Entry>) -> Sessions
    decreases entries.len(),
{
    if entries.len() == 0 {
        Map::empty()
    } else {
        entry_map(entries.drop_last()).insert(entries.last().key(), entries.last().session@)
    }
}

/// No peer has two entries.
spec fn distinct(entries: Seq<Entry>) -> bool {
    forall|i: int, j: int|
        0 <= i < j < entries.len() ==> (#[trigger] entries[i]).key() != (
        #[trigger] entries[j]).key()
}

/// Everything that was agreed on keeps within bounds.
pub open spec fn bounded(sessions: Sessions) -> bool {
    forall|key: PeerKey| #[trigger]
        sessions.contains_key(key) ==> (sessions[key].caps matches Some(caps) ==> within_bounds(
            caps,
        ))
}

impl HandshakeState {
    #[verifier::type_invariant]
    spec fn well_formed(self) -> bool {
        &&& distinct(self.entries@)
        &&& bounded(entry_map(self.entries@))
    }
}

impl View for HandshakeState {
    type V = Sessions;

    closed spec fn view(&self) -> Sessions {
        entry_map(self.entries@)
    }
}

/// A message to send, with its tag.
#[derive(Debug)]
pub struct Outgoing {
    pub tag: &'static str,
    pub body: Json,
}

/// What a message that may be absent says.
pub open spec fn sent(message: Option<Outgoing>) -> Option<(Seq<char>, JsonView)> {
    match message {
        Some(m) => Some((m.tag@, m.body@)),
        None => None,
    }
}

/// Whether a session last seen at some time has not timed out yet.
pub open spec fn fresh(last_seen: u64, now: u64) -> bool {
    now - last_seen <= HS_TIMEOUT
}

/// Whether a peer is open.
pub open spec fn open_at(sessions: Sessions, key: PeerKey, now: u64) -> bool {
    sessions.contains_key(key) && sessions[key].open && fresh(sessions[key].last_seen, now)
}

/// What is agreed on with a peer that is open.
pub open spec fn caps_at(sessions: Sessions, key: PeerKey, now: u64) -> Option<CapsView> {
    if open_at(sessions, key, now) {
        sessions[key].caps
    } else {
        None
    }
}

/// The size of chunks for a peer that is open and takes chunks.
pub open spec fn chunk_size_at(sessions: Sessions, key: PeerKey, now: u64) -> Option<usize> {
    match caps_at(sessions, key, now) {
        Some(caps) => if caps.chunked && caps.chunk_size > 0 {
            Some(caps.chunk_size)
        } else {
            None
        },
        None => None,
    }
}

/// The sessions that have not timed out.
pub open spec fn live(sessions: Sessions, now: u64) -> Sessions {
    sessions.restrict(
        Set::new(
            |key: PeerKey| sessions.contains_key(key) && fresh(sessions[key].last_seen, now),
        ),
    )
}

/// The sessions after a peer was heard of: the others that have timed out are
/// dropped, and the peer's own session, new unless it was still live, is seen now
/// and takes over what is told of it.
pub open spec fn touched(
    sessions: Sessions,
    key: PeerKey,
    now: u64,
    open: Option<bool>,
    caps: Option<CapsView>,
) -> Sessions {
    let kept = live(sessions, now);
    let known = kept.contains_key(key);
    kept.insert(
        key,
        SessionView {
            open: match open {
                Some(b) => b,
                None => known && kept[key].open,
            },
            last_seen: now,
            caps: match caps {
                Some(c) => Some(c),
                None => if known {
                    kept[key].caps
                } else {
                    None
                },
            },
        },
    )
}

/// An entry map holds exactly the entries' keys.
proof fn lemma_entry_map_keys(entries: Seq<Entry>, key: PeerKey)
    ensures
        entry_map(entries).contains_key(key) <==> exists|i: int|
            0 <= i < entries.len() && (#[trigger] entries[i]).key() == key,
    decreases entries.len(),
{
    if entries.len() > 0 {
        let rest = entries.drop_last();
        lemma_entry_map_keys(rest, key);
        if exists|i: int| 0 <= i < rest.len() && (#[trigger] rest[i]).key() == key {
            let i = choose|i: int| 0 <= i < rest.len() && (#[trigger] rest[i]).key() == key;
            assert(entries[i].key() == key);
        }
        if exists|i: int| 0 <= i < entries.len() && (#[trigger] entries[i]).key() == key {
            let i = choose|i: int| 0 <= i < entries.len() && (#[trigger] entries[i]).key() == key;
            if i < rest.len() {
                assert(rest[i].key() == key);
            }
        }
        if entries.last().key() == key {
            assert(entries[entries.len() - 1].key() == key);
        }
    }
}

/// Of distinct entries, each is found under its key.
proof fn lemma_entry_map_at(entries: Seq<Entry>, i: int)
    requires
        distinct(entries),
        0 <= i < entries.len(),
    ensures
        entry_map(entries).contains_key(entries[i].key()),
        entry_map(entries)[entries[i].key()] == entries[i].session@,
    decreases entries.len(),
{
    if i < entries.len() - 1 {
        let rest = entries.drop_last();
        assert(rest[i] == entries[i]);
        assert forall|a: int, b: int| 0 <= a < b < rest.len() implies (#[trigger] rest[a]).key()
            != (#[trigger] rest[b]).key() by {
            assert(rest[a] == entries[a] && rest[b] == entries[b]);
        }
        lemma_entry_map_at(rest, i);
        assert(entries[i].key() != entries[entries.len() - 1].key());
    }
}

/// Where an entry's peer is.
fn find(entries: &Vec<Entry>, addr: &str, pkg: &str) -> (at: Option<usize>)
    requires
        distinct(entries@),
    ensures
        at is Some <==> entry_map(entries@).contains_key((addr@, pkg@)),
        at matches Some(i) ==> i < entries@.len() && entries@[i as int].session@ == entry_map(
            entries@,
        )[(addr@, pkg@)],
{
    let mut i: usize = 0;
    while i < entries.len()
        invariant
            i <= entries@.len(),
            distinct(entries@),
            forall|j: int| 0 <= j < i ==> (#[trigger] entries@[j]).key() != (addr@, pkg@),
        decreases entries@.len() - i,
    {
        if same_text(entries[i].addr.as_str(), addr) && same_text(entries[i].pkg.as_str(), pkg) {
            proof {
                lemma_entry_map_at(entries@, i as int);
                assert(entries@[i as int].key() == (addr@, pkg@));
            }
            return Some(i);
        }
        i += 1;
    }
    proof {
        lemma_entry_map_keys(entries@, (addr@, pkg@));
    }
    None
}

impl HandshakeState {
    /// No sessions.
    pub fn new() -> (state: HandshakeState)
        ensures
            state@ == Map::<PeerKey, SessionView>::empty(),
    {
        HandshakeState { entries: Vec::new() }
    }
}

impl Default for HandshakeState {
    fn default() -> (state: HandshakeState)
        ensures
            state@ == Map::<PeerKey, SessionView>::empty(),
    {
        HandshakeState::new()
    }
}

/// Whether a time lies within the timeout of an earlier one.
fn is_fresh(last_seen: u64, now: u64) -> (b: bool)
    ensures
        b == fresh(last_seen, now),
{
    last_seen >= now || now - last_seen <= HS_TIMEOUT
}

/// Whether a peer is open: it was opened, and heard of within the timeout.
pub fn is_open(state: &HandshakeState, addr: &str, pkg: &str, now: u64) -> (open: bool)
    ensures
        open == open_at(state@, (addr@, pkg@), now),
{
    proof {
        use_type_invariant(state);
    }
    match find(&state.entries, addr, pkg) {
        Some(i) => {
            let session: &Session = &state.entries[i].session;
            session.open && is_fresh(session.last_seen, now)
        },
        None => false,
    }
}

/// What is agreed on with a peer. `None` where there is no session, where it is
/// not open or has timed out, and where the peer never advertised anything.
pub fn negotiated_caps(state: &HandshakeState, addr: &str, pkg: &str, now: u64) -> (caps: Option<
    NegotiatedCaps,
>)
    ensures
        caps_view(caps) == caps_at(state@, (addr@, pkg@), now),
        caps matches Some(c) ==> within_bounds(c@),
{
    proof {
        use_type_invariant(state);
    }
    match find(&state.entries, addr, pkg) {
        Some(i) => {
            let session: &Session = &state.entries[i].session;
            if !session.open || !is_fresh(session.last_seen, now) {
                return None;
            }
            match &session.caps {
                Some(caps) => Some(caps.clone()),
                None => None,
            }
        },
        None => None,
    }
}

/// The size of chunks for a peer; `None` where it is sent none.
pub fn negotiated_chunk_size(state: &HandshakeState, addr: &str, pkg: &str, now: u64) -> (size:
    Option<usize>)
    ensures
        size == chunk_size_at(state@, (addr@, pkg@), now),
        size matches Some(n) ==> MIN_CHUNK_SIZE <= n <= LOCAL_MAX_CHUNK_SIZE,
{
    let caps: NegotiatedCaps = match negotiated_caps(state, addr, pkg, now) {
        Some(caps) => caps,
        None => {
            return None;
        },
    };
    if caps.chunked && caps.chunk_size > 0 {
        Some(caps.chunk_size)
    } else {
        None
    }
}

/// Taking an entry off the end takes its peer out of the map.
proof fn lemma_entry_map_pop(entries: Seq<Entry>)
    requires
        distinct(entries),
        entries.len() > 0,
    ensures
        distinct(entries.drop_last()),
        !entry_map(entries.drop_last()).contains_key(entries.last().key()),
        entry_map(entries) == entry_map(entries.drop_last()).insert(
            entries.last().key(),
            entries.last().session@,
        ),
{
    let rest = entries.drop_last();
    assert forall|a: int, b: int| 0 <= a < b < rest.len() implies (#[trigger] rest[a]).key() != (
    #[trigger] rest[b]).key() by {
        assert(rest[a] == entries[a] && rest[b] == entries[b]);
    }
    lemma_entry_map_keys(rest, entries.last().key());
    assert forall|a: int| 0 <= a < rest.len() implies (#[trigger] rest[a]).key()
        != entries.last().key() by {
        assert(rest[a] == entries[a] && entries.last() == entries[entries.len() - 1]);
    }
}

/// Adding an entry of a new peer adds the peer to the map.
proof fn lemma_entry_map_push(entries: Seq<Entry>, entry: Entry)
    requires
        distinct(entries),
        !entry_map(entries).contains_key(entry.key()),
    ensures
        distinct(entries.push(entry)),
        entry_map(entries.push(entry)) == entry_map(entries).insert(entry.key(), entry.session@),
{
    assert(entries.push(entry).drop_last() =~= entries);
    lemma_entry_map_keys(entries, entry.key());
}

/// Records that a peer was heard of, and what it told, and tells whether it is
/// open. Sessions that have timed out are dropped first, so that none of them
/// passes for open later.
pub(crate) fn touch(
    state: &mut HandshakeState,
    addr: &str,
    pkg: &str,
    now: u64,
    open: Option<bool>,
    caps: Option<NegotiatedCaps>,
) -> (is_open: bool)
    requires
        caps matches Some(c) ==> within_bounds(c@),
    ensures
        final(state)@ == touched(old(state)@, (addr@, pkg@), now, open, caps_view(caps)),
        is_open == final(state)@[(addr@, pkg@)].open,
{
    proof {
        use_type_invariant(&*state);
    }
    let ghost key: PeerKey = (addr@, pkg@);
    let ghost all: Sessions = state@;
    let mut rest: Vec<Entry> = Vec::new();
    std::mem::swap(&mut rest, &mut state.entries);

    let mut kept: Vec<Entry> = Vec::new();
    let mut own: Option<Session> = None;
    while rest.len() > 0
        invariant
            key == (addr@, pkg@),
            distinct(rest@),
            distinct(kept@),
            !entry_map(kept@).contains_key(key),
            forall|k: PeerKey| #[trigger]
                entry_map(rest@).contains_key(k) ==> all.contains_key(k) && all[k] == entry_map(
                    rest@,
                )[k] && !entry_map(kept@).contains_key(k),
            forall|k: PeerKey|
                k != key ==> ((#[trigger] entry_map(kept@).contains_key(k)) <==> all.contains_key(k)
                    && !entry_map(rest@).contains_key(k) && fresh(all[k].last_seen, now)),
            forall|k: PeerKey| #[trigger]
                entry_map(kept@).contains_key(k) ==> entry_map(kept@)[k] == all[k],
            own is Some <==> all.contains_key(key) && !entry_map(rest@).contains_key(key) && fresh(
                all[key].last_seen,
                now,
            ),
            own matches Some(s) ==> s@ == all[key],
        decreases rest@.len(),
    {
        let ghost before = rest@;
        proof {
            lemma_entry_map_pop(before);
        }
        let entry: Entry = rest.pop().unwrap();
        proof {
            assert(rest@ =~= before.drop_last());
            assert(entry == before.last());
            assert(entry_map(before).contains_key(entry.key()));
            assert forall|k: PeerKey| #[trigger]
                entry_map(rest@).contains_key(k) implies all.contains_key(k) && all[k]
                == entry_map(rest@)[k] && k != entry.key() by {
                assert(entry_map(before).contains_key(k));
            }
        }
        if is_fresh(entry.session.last_seen, now) {
            if same_text(entry.addr.as_str(), addr) && same_text(entry.pkg.as_str(), pkg) {
                own = Some(entry.session);
            } else {
                proof {
                    lemma_entry_map_push(kept@, entry);
                }
                kept.push(entry);
            }
        }
    }

    let mut session = match own {
        Some(s) => s,
        None => Session { open: false, last_seen: now, caps: None },
    };
    session.last_seen = now;
    if let Some(b) = open {
        session.open = b;
    }
    if let Some(c) = caps {
        session.caps = Some(c);
    }
    let is_open: bool = session.open;
    let entry = Entry { addr: addr.to_string(), pkg: pkg.to_string(), session };
    proof {
        lemma_entry_map_push(kept@, entry);
    }
    kept.push(entry);
    proof {
        assert(entry_map(kept@) =~= touched(all, key, now, open, caps_view(caps)));
        assert(bounded(entry_map(kept@)));
    }
    state.entries = kept;
    is_open
}

/// The count of a packet: the largest `i64` stands for any count above it, and a
/// packet without an integer for its count has zero.
pub open spec fn packet_count(packet: JsonView) -> i64 {
    match packet.get("count"@) {
        Some(v) => match v.as_i64() {
            Some(n) => n,
            None => if v.as_u64() is Some {
                i64::MAX
            } else {
                0
            },
        },
        None => 0,
    }
}

/// What a packet leads to agree on; `None` where it advertises nothing.
pub open spec fn packet_caps(codecs: CodecsView, packet: JsonView) -> Option<CapsView> {
    match advertised(codecs, packet.get("caps"@)) {
        Some(peer) => Some(agreed(codecs, peer)),
        None => None,
    }
}

/// The packet that this side sends with a given count.
pub open spec fn handshake_packet(codecs: CodecsView, count: int) -> JsonView {
    JsonView::Object(
        map![
            "count"@ => JsonView::Integer(count),
            "caps"@ => local_caps(codecs),
        ],
    )
}

/// The sessions after a packet from a peer: a count above zero opens the
/// session, and what the packet advertises replaces what was agreed on.
pub open spec fn after_packet(
    sessions: Sessions,
    codecs: CodecsView,
    key: PeerKey,
    packet: JsonView,
    now: u64,
) -> Sessions {
    touched(
        sessions,
        key,
        now,
        if packet_count(packet) > 0 {
            Some(true)
        } else {
            None
        },
        packet_caps(codecs, packet),
    )
}

/// The answer to a packet: the next count, as long as the count is below two.
pub open spec fn reply_to(codecs: CodecsView, packet: JsonView) -> Option<JsonView> {
    if packet_count(packet) < 2 {
        Some(handshake_packet(codecs, packet_count(packet) + 1))
    } else {
        None
    }
}

/// Builds the packet with a given count.
fn packet_with(codecs: &Codecs, count: i64) -> (message: Outgoing)
    ensures
        message.tag@ == HS_TAG@,
        message.body@ == handshake_packet(codecs@, count as int),
{
    let mut entries: Vec<(String, Json)> = Vec::new();
    proof {
        lemma_no_entries();
        assert(entries_view(entries@) =~= Map::empty());
    }
    put(&mut entries, "count", Json::Integer(count as i128));
    put(&mut entries, "caps", local_caps_value(codecs));
    let body: Json = Json::object(entries);
    assert(body@ =~= handshake_packet(codecs@, count as int));
    Outgoing { tag: HS_TAG, body }
}

/// What came of a packet.
#[derive(Debug)]
pub struct PacketOutcome {
    /// Whether the packet opened a session that was not open.
    pub opened: bool,
    /// The count of the packet; the largest `i64` where it is larger still.
    pub count: i64,
    /// What it led to agree on, where it advertised anything.
    pub negotiated: Option<NegotiatedCaps>,
    /// The answer to send.
    pub reply: Option<Outgoing>,
}

/// Takes in a handshake packet of a peer.
pub fn handle_packet(
    state: &mut HandshakeState,
    codecs: &Codecs,
    addr: &str,
    pkg: &str,
    packet: &Json,
    now: u64,
) -> (outcome: PacketOutcome)
    ensures
        final(state)@ == after_packet(old(state)@, codecs@, (addr@, pkg@), packet@, now),
        outcome.opened == (!open_at(old(state)@, (addr@, pkg@), now) && packet_count(packet@) > 0),
        outcome.count == packet_count(packet@),
        caps_view(outcome.negotiated) == packet_caps(codecs@, packet@),
        sent(outcome.reply) == match reply_to(codecs@, packet@) {
            Some(body) => Some((HS_TAG@, body)),
            None => None,
        },
{
    let count: i64 = match packet.get("count") {
        Some(v) => match v.as_i64() {
            Some(n) => n,
            None => match v.as_u64() {
                Some(_) => i64::MAX,
                None => 0,
            },
        },
        None => 0,
    };
    let negotiated: Option<NegotiatedCaps> = match parse_caps(codecs, packet.get("caps")) {
        Some(peer) => {
            proof {
                law_agreement_is_within_bounds(codecs@, peer@);
            }
            Some(negotiate(codecs, peer))
        },
        None => None,
    };
    let was_open: bool = is_open(state, addr, pkg, now);
    let open: Option<bool> = if count > 0 {
        Some(true)
    } else {
        None
    };
    let told: Option<NegotiatedCaps> = match &negotiated {
        Some(caps) => Some(caps.clone()),
        None => None,
    };
    touch(state, addr, pkg, now, open, told);
    let reply: Option<Outgoing> = if count < 2 {
        Some(packet_with(codecs, count + 1))
    } else {
        None
    };
    PacketOutcome { opened: !was_open && count > 0, count, negotiated, reply }
}

/// The sessions after making sure that a peer is open: nothing changes where
/// it is, and it counts as heard of and open where it is not.
pub open spec fn after_ensure_open(sessions: Sessions, key: PeerKey, now: u64) -> Sessions {
    if open_at(sessions, key, now) {
        sessions
    } else {
        touched(sessions, key, now, Some(true), None)
    }
}

/// Makes sure that a peer is open before work flows to it. Where it is not, it is
/// taken to be open from now on, and the packet that starts the handshake is
/// returned, to be sent: the answer is not waited for, and should none come, the
/// session times out. What was agreed on stays as it was.
pub fn ensure_open(
    state: &mut HandshakeState,
    codecs: &Codecs,
    addr: &str,
    pkg: &str,
    now: u64,
) -> (message: Option<Outgoing>)
    ensures
        final(state)@ == after_ensure_open(old(state)@, (addr@, pkg@), now),
        sent(message) == if open_at(old(state)@, (addr@, pkg@), now) {
            None
        } else {
            Some((HS_TAG@, handshake_packet(codecs@, 0)))
        },
{
    if is_open(state, addr, pkg, now) {
        return None;
    }
    let message: Outgoing = packet_with(codecs, 0);
    touch(state, addr, pkg, now, Some(true), None);
    Some(message)
}

/// The keys of a packet are distinct.
proof fn lemma_packet_keys_differ()
    ensures
        "count"@ != "caps"@,
{
    reveal_strlit("count");
    reveal_strlit("caps");
    assert("count"@.len() == 5 && "caps"@.len() == 4);
}

/// A packet that this side sends has the count that it was made with, and
/// advertises this side's capabilities.
pub proof fn law_packet_reads_back(codecs: CodecsView, count: int)
    requires
        i64::MIN <= count <= i64::MAX,
    ensures
        packet_count(handshake_packet(codecs, count)) == count,
        handshake_packet(codecs, count).get("caps"@) == Some(local_caps(codecs)),
{
    lemma_packet_keys_differ();
}

/// A peer that is open stays open for the timeout after it was last heard of, and
/// no longer.
pub proof fn law_sessions_time_out(
    sessions: Sessions,
    key: PeerKey,
    now: u64,
    caps: Option<CapsView>,
    later: u64,
)
    requires
        now <= later,
    ensures
        open_at(touched(sessions, key, now, Some(true), caps), key, later) <==> later - now
            <= HS_TIMEOUT,
{
}

/// Hearing of one peer leaves every other peer as open as it was, now and later,
/// with the same capabilities; of the other sessions only those that have timed
/// out are dropped.
pub proof fn law_peers_are_independent(
    sessions: Sessions,
    key: PeerKey,
    other: PeerKey,
    now: u64,
    open: Option<bool>,
    caps: Option<CapsView>,
    later: u64,
)
    requires
        key != other,
        now <= later,
    ensures
        open_at(touched(sessions, key, now, open, caps), other, later) == open_at(
            sessions,
            other,
            later,
        ),
        caps_at(touched(sessions, key, now, open, caps), other, later) == caps_at(
            sessions,
            other,
            later,
        ),
{
}

/// After any packet no session is left that has timed out.
pub proof fn law_stale_sessions_are_dropped(
    sessions: Sessions,
    key: PeerKey,
    now: u64,
    open: Option<bool>,
    caps: Option<CapsView>,
    any: PeerKey,
)
    requires
        touched(sessions, key, now, open, caps).contains_key(any),
    ensures
        fresh(touched(sessions, key, now, open, caps)[any].last_seen, now),
{
}

/// Whatever integer of 64 bits a packet carries as its count, signed or not: the
/// count that it is read to have is above zero, and below two, exactly where that
/// integer is.
pub proof fn law_counts_are_told_apart(packet: JsonView, n: int)
    requires
        packet.get("count"@) == Some(JsonView::Integer(n)),
        i64::MIN <= n <= u64::MAX,
    ensures
        packet_count(packet) > 0 <==> n > 0,
        packet_count(packet) < 2 <==> n < 2,
{
}

/// A packet that carries an integer above zero opens the session, however large the
/// integer is, and one that carries two or more is not answered.
pub proof fn law_any_positive_integer_opens(
    sessions: Sessions,
    codecs: CodecsView,
    key: PeerKey,
    packet: JsonView,
    now: u64,
    n: int,
)
    requires
        packet.get("count"@) == Some(JsonView::Integer(n)),
        i64::MIN <= n <= u64::MAX,
    ensures
        n > 0 ==> open_at(after_packet(sessions, codecs, key, packet, now), key, now),
        reply_to(codecs, packet) is Some <==> n < 2,
{
    law_counts_are_told_apart(packet, n);
}

/// A packet whose count is above zero opens the session; any other leaves it as
/// open as it was.
pub proof fn law_positive_counts_open(
    sessions: Sessions,
    codecs: CodecsView,
    key: PeerKey,
    packet: JsonView,
    now: u64,
)
    ensures
        open_at(after_packet(sessions, codecs, key, packet, now), key, now) <==> packet_count(
            packet,
        ) > 0 || open_at(sessions, key, now),
{
}

/// A peer that omits its capabilities keeps what was agreed on before, which is
/// nothing for a peer whose session is new or has timed out.
pub proof fn law_capabilities_are_kept(
    sessions: Sessions,
    codecs: CodecsView,
    key: PeerKey,
    packet: JsonView,
    now: u64,
)
    requires
        packet_caps(codecs, packet) is None,
    ensures
        open_at(sessions, key, now) ==> caps_at(
            after_packet(sessions, codecs, key, packet, now),
            key,
            now,
        ) == caps_at(sessions, key, now),
        !live(sessions, now).contains_key(key) ==> caps_at(
            after_packet(sessions, codecs, key, packet, now),
            key,
            now,
        ) is None,
{
}

/// Only a peer that is open has capabilities, and a peer that is sent chunks has
/// capabilities that say so. The chunk size is within bounds.
pub proof fn law_chunks_need_an_open_peer(sessions: Sessions, key: PeerKey, now: u64)
    requires
        bounded(sessions),
    ensures
        caps_at(sessions, key, now) is Some ==> open_at(sessions, key, now),
        chunk_size_at(sessions, key, now) is Some <==> caps_at(sessions, key, now) is Some
            && caps_at(sessions, key, now)->0.chunked,
        chunk_size_at(sessions, key, now) matches Some(n) ==> MIN_CHUNK_SIZE <= n
            <= LOCAL_MAX_CHUNK_SIZE,
{
}

/// Making sure that a peer is open leaves it open, and doing so again at once
/// changes nothing. A peer without a live session has no capabilities until it
/// sends its own.
pub proof fn law_ensure_open_opens(sessions: Sessions, key: PeerKey, now: u64)
    ensures
        open_at(after_ensure_open(sessions, key, now), key, now),
        after_ensure_open(after_ensure_open(sessions, key, now), key, now) == after_ensure_open(
            sessions,
            key,
            now,
        ),
        !live(sessions, now).contains_key(key) ==> caps_at(after_ensure_open(sessions, key, now), key, now)
            is None,
{
}

/// Whatever packets come, and whenever openness is ensured, what is agreed on
/// keeps within bounds.
pub proof fn law_agreements_stay_within_bounds(
    sessions: Sessions,
    codecs: CodecsView,
    key: PeerKey,
    packet: JsonView,
    now: u64,
)
    requires
        bounded(sessions),
    ensures
        bounded(after_packet(sessions, codecs, key, packet, now)),
        bounded(after_ensure_open(sessions, key, now)),
{
    if let Some(peer) = advertised(codecs, packet.get("caps"@)) {
        law_agreement_is_within_bounds(codecs, peer);
    }
    let next = after_packet(sessions, codecs, key, packet, now);
    assert forall|k: PeerKey| #[trigger] next.contains_key(k) implies (next[k].caps matches Some(
        caps,
    ) ==> within_bounds(caps)) by {
        assert(sessions.contains_key(k) || k == key);
    }
    let opened = after_ensure_open(sessions, key, now);
    assert forall|k: PeerKey| #[trigger] opened.contains_key(k) implies (opened[k].caps matches Some(
        caps,
    ) ==> within_bounds(caps)) by {
        assert(sessions.contains_key(k) || k == key);
    }
}

/// One of two sides that exchange packets.
pub struct Side {
    pub sessions: Sessions,
    pub codecs: CodecsView,
    /// The other side, as this side addresses it.
    pub peer: PeerKey,
}

/// The side after a packet from the other.
pub open spec fn received(side: Side, packet: JsonView, now: u64) -> Side {
    Side { sessions: after_packet(side.sessions, side.codecs, side.peer, packet, now), ..side }
}

/// Both sides, the sender first, after a packet was delivered and every answer
/// after it. A packet of count `n` is delivered at the time `at(n)`.
pub open spec fn exchange(
    sender: Side,
    receiver: Side,
    packet: JsonView,
    at: spec_fn(int) -> u64,
) -> (Side, Side)
    decreases 2 - packet_count(packet),
{
    let heard = received(receiver, packet, at(packet_count(packet) as int));
    match reply_to(receiver.codecs, packet) {
        None => (sender, heard),
        Some(reply) => {
            proof {
                law_packet_reads_back(receiver.codecs, packet_count(packet) + 1);
            }
            let (replier, other) = exchange(heard, sender, reply, at);
            (other, replier)
        },
    }
}

/// What one side makes of the other's advertisement.
pub open spec fn made_of(here: CodecsView, there: CodecsView) -> CapsView {
    agreed(here, advertised(here, Some(local_caps(there)))->0)
}

/// The exchange of packets comes to an end, and it converges: from any packet
/// with a count below two on, both sides are open once the last packet is
/// delivered, each with what it makes of the other's capabilities. Only the last
/// two packets may not lie further apart than the timeout.
pub proof fn law_exchange_converges(
    sender: Side,
    receiver: Side,
    count: int,
    at: spec_fn(int) -> u64,
)
    requires
        i64::MIN <= count < 2,
        at(1) <= at(2) <= at(1) + HS_TIMEOUT,
    ensures
        ({
            let (a, b) = exchange(sender, receiver, handshake_packet(sender.codecs, count), at);
            &&& open_at(a.sessions, sender.peer, at(2))
            &&& open_at(b.sessions, receiver.peer, at(2))
            &&& caps_at(a.sessions, sender.peer, at(2)) == Some(
                made_of(sender.codecs, receiver.codecs),
            )
            &&& caps_at(b.sessions, receiver.peer, at(2)) == Some(
                made_of(receiver.codecs, sender.codecs),
            )
        }),
    decreases 2 - count,
{
    let packet = handshake_packet(sender.codecs, count);
    law_packet_reads_back(sender.codecs, count);
    law_packet_reads_back(receiver.codecs, count + 1);
    let heard = received(receiver, packet, at(count));
    let reply = handshake_packet(receiver.codecs, count + 1);
    if count + 1 < 2 {
        law_exchange_converges(heard, sender, count + 1, at);
    } else {
        let done = received(sender, reply, at(2));
        assert(exchange(heard, sender, reply, at) == (heard, done));
    }
}

/// Every packet counts as hearing of the peer, whatever it carries and whether the peer
/// was open or not: the timeout of three seconds starts anew with it. So the peer is
/// open at a later time exactly where the packet opened it, or found it open, and no
/// more than three seconds have gone by since the packet.
pub proof fn law_every_packet_refreshes(
    sessions: Sessions,
    codecs: CodecsView,
    key: PeerKey,
    packet: JsonView,
    now: u64,
    later: u64,
)
    requires
        now <= later,
    ensures
        after_packet(sessions, codecs, key, packet, now).contains_key(key),
        after_packet(sessions, codecs, key, packet, now)[key].last_seen == now,
        open_at(after_packet(sessions, codecs, key, packet, now), key, later) <==> (packet_count(
            packet,
        ) > 0 || open_at(sessions, key, now)) && later - now <= 3_000_000_000,
{
}

/// The count of a packet is the integer that it carries, `i64::MAX` for a larger one of
/// 64 bits, and zero where it carries none.
pub proof fn law_count_is_what_the_packet_carries(packet: JsonView)
    ensures
        match packet.get("count"@) {
            Some(JsonView::Integer(n)) => if i64::MIN <= n <= i64::MAX {
                packet_count(packet) == n
            } else if 0 <= n <= u64::MAX {
                packet_count(packet) == i64::MAX
            } else {
                packet_count(packet) == 0
            },
            _ => packet_count(packet) == 0,
        },
{
}

/// Whether a peer has a session that was heard of within three seconds.
pub open spec fn has_live_session(sessions: Sessions, key: PeerKey, now: u64) -> bool {
    sessions.contains_key(key) && now - sessions[key].last_seen <= 3_000_000_000
}

/// Whether a step concerns one peer only: of all others, exactly the live sessions stay,
/// each as it was.
pub open spec fn others_stay(before: Sessions, after: Sessions, key: PeerKey, now: u64) -> bool {
    forall|other: PeerKey|
        #![trigger after.contains_key(other)]
        other != key ==> {
            &&& after.contains_key(other) <==> has_live_session(before, other, now)
            &&& after.contains_key(other) ==> after[other] == before[other]
        }
}

/// There is no peer to begin with.
pub proof fn law_a_new_state_knows_no_peer(state: HandshakeState, default: HandshakeState)
    requires
        call_ensures(HandshakeState::new, (), state),
        call_ensures(HandshakeState::default, (), default),
    ensures
        forall|key: PeerKey| !state@.contains_key(key) && !default@.contains_key(key),
{
}

/// A peer is open exactly where it has a session that is open and live.
pub proof fn law_open_means_open_and_live(
    state: &HandshakeState,
    addr: &str,
    pkg: &str,
    now: u64,
    open: bool,
)
    requires
        call_ensures(is_open, (state, addr, pkg, now), open),
    ensures
        open <==> has_live_session(state@, (addr@, pkg@), now) && state@[(addr@, pkg@)].open,
{
}

/// Capabilities are told exactly where the peer is open and the session has some, and
/// they are those of the session. The chunk size is told exactly where capabilities are
/// and they take chunks, and it is theirs.
pub proof fn law_capabilities_are_those_of_the_session(
    state: &HandshakeState,
    addr: &str,
    pkg: &str,
    now: u64,
    open: bool,
    caps: Option<NegotiatedCaps>,
    size: Option<usize>,
)
    requires
        call_ensures(is_open, (state, addr, pkg, now), open),
        call_ensures(negotiated_caps, (state, addr, pkg, now), caps),
        call_ensures(negotiated_chunk_size, (state, addr, pkg, now), size),
    ensures
        caps is Some <==> open && state@[(addr@, pkg@)].caps is Some,
        caps matches Some(c) ==> state@[(addr@, pkg@)].caps == Some(c@),
        size is Some <==> caps is Some && caps->0.chunked,
        size matches Some(n) ==> n == caps->0.chunk_size && 256 <= n <= 4096,
{
}

/// What a packet does to the session of its sender: it is seen now; it is open exactly
/// where the count is above zero or it was open already; and it has what the packet
/// advertises, or what it had where the packet advertises nothing. A session that had
/// timed out counts for nothing. Other peers are not concerned.
pub proof fn law_packet_updates_its_own_session(
    state: &mut HandshakeState,
    codecs: &Codecs,
    addr: &str,
    pkg: &str,
    packet: &Json,
    now: u64,
    outcome: PacketOutcome,
)
    requires
        call_ensures(handle_packet, (state, codecs, addr, pkg, packet, now), outcome),
    ensures
        ({
            let key = (addr@, pkg@);
            let (before, after) = (old(state)@, final(state)@);
            let was_live = has_live_session(before, key, now);
            &&& after.contains_key(key)
            &&& after[key].last_seen == now
            &&& after[key].open <==> packet_count(packet@) > 0 || (was_live && before[key].open)
            &&& outcome.negotiated matches Some(c) ==> after[key].caps == Some(c@)
            &&& outcome.negotiated is None && was_live ==> after[key].caps == before[key].caps
            &&& outcome.negotiated is None && !was_live ==> after[key].caps is None
            &&& others_stay(before, after, key, now)
        }),
{
}

/// What a packet leads to agree on is what negotiating gives on the capabilities that
/// are read out of it, and nothing where there are none.
pub proof fn law_packet_is_negotiated(
    state: &mut HandshakeState,
    codecs: &Codecs,
    addr: &str,
    pkg: &str,
    packet: &Json,
    now: u64,
    outcome: PacketOutcome,
    v: Option<&Json>,
    peer: Option<PeerCaps>,
    caps: NegotiatedCaps,
)
    requires
        call_ensures(handle_packet, (state, codecs, addr, pkg, packet, now), outcome),
        call_ensures(parse_caps, (codecs, v), peer),
        found(v) == packet@.get("caps"@),
        peer is Some ==> call_ensures(negotiate, (codecs, peer->0), caps),
    ensures
        outcome.negotiated is Some <==> peer is Some,
        outcome.negotiated matches Some(c) ==> c@ == caps@,
        outcome.negotiated is Some <==> (packet@.get("caps"@) matches Some(JsonView::Object(_))),
{
}

/// What is told of a packet: its count; that it opened the session exactly where the
/// session is open after it and was not before it; and the answer. There is one exactly
/// where the count is below two, and it holds the next count and what this side
/// advertises, and nothing else.
pub proof fn law_packet_is_answered_with_the_next_count(
    state: &mut HandshakeState,
    codecs: &Codecs,
    addr: &str,
    pkg: &str,
    packet: &Json,
    now: u64,
    outcome: PacketOutcome,
    offer: Json,
)
    requires
        call_ensures(handle_packet, (state, codecs, addr, pkg, packet, now), outcome),
        call_ensures(local_caps_value, (codecs,), offer),
    ensures
        outcome.count == packet_count(packet@),
        outcome.opened <==> final(state)@[(addr@, pkg@)].open && !(has_live_session(
            old(state)@,
            (addr@, pkg@),
            now,
        ) && old(state)@[(addr@, pkg@)].open),
        outcome.reply is Some <==> outcome.count < 2,
        outcome.reply matches Some(m) ==> m.tag@ == "__hs__"@ && (
        m.body@ matches JsonView::Object(o) && {
            &&& o.dom() =~= set!["count"@, "caps"@]
            &&& o["count"@] == JsonView::Integer(outcome.count + 1)
            &&& o["caps"@] == offer@
        }),
{
    lemma_packet_keys_differ();
}

/// Making sure that a peer is open leaves it open and live. Where it was so already,
/// nothing changes and nothing is to be sent. Where it was not, it is seen now, it keeps
/// the capabilities of a live session and has none otherwise, and the packet to send has
/// count zero and what this side advertises, and nothing else. Other peers are not
/// concerned.
pub proof fn law_ensure_open_starts_a_handshake(
    state: &mut HandshakeState,
    codecs: &Codecs,
    addr: &str,
    pkg: &str,
    now: u64,
    message: Option<Outgoing>,
    offer: Json,
)
    requires
        call_ensures(ensure_open, (state, codecs, addr, pkg, now), message),
        call_ensures(local_caps_value, (codecs,), offer),
    ensures
        ({
            let key = (addr@, pkg@);
            let (before, after) = (old(state)@, final(state)@);
            let was_live = has_live_session(before, key, now);
            let was_open = was_live && before[key].open;
            &&& has_live_session(after, key, now) && after[key].open
            &&& was_open ==> after == before && message is None
            &&& !was_open ==> {
                &&& after[key].last_seen == now
                &&& after[key].caps == if was_live {
                    before[key].caps
                } else {
                    None
                }
                &&& others_stay(before, after, key, now)
                &&& message matches Some(m) && m.tag@ == "__hs__"@ && (
                m.body@ matches JsonView::Object(o) && {
                    &&& o.dom() =~= set!["count"@, "caps"@]
                    &&& o["count"@] == JsonView::Integer(0)
                    &&& o["caps"@] == offer@
                })
            }
        }),
{
    lemma_packet_keys_differ();
}

/// A packet followed by a question: after a packet of a peer, the peer is told to be
/// open for three seconds and no longer, exactly where the packet's count is above zero
/// or the peer was told to be open before.
pub proof fn law_a_packet_keeps_a_peer_open(
    state: &mut HandshakeState,
    codecs: &Codecs,
    addr: &str,
    pkg: &str,
    packet: &Json,
    now: u64,
    later: u64,
    outcome: PacketOutcome,
    before: bool,
    after: bool,
)
    requires
        call_ensures(is_open, (old(state), addr, pkg, now), before),
        call_ensures(handle_packet, (state, codecs, addr, pkg, packet, now), outcome),
        call_ensures(is_open, (final(state), addr, pkg, later), after),
        now <= later,
    ensures
        after <==> (outcome.count > 0 || before) && later - now <= 3_000_000_000,
{
}

} // verus!
