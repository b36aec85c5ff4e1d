//! Capabilities: what a peer advertises, what this side advertises, and what
//! the two agree on.

use crate::codec::{
    compression_names, encoding_names, BodyEncoding, Codecs, CodecsView, Compression,
};
use crate::json::{
    append, entries_view, found, items_view, lemma_items_view, lemma_no_entries, lemma_no_items,
    put, Json, JsonView,
};
use vstd::prelude::*;

verus! {

/// The protocol version that this side advertises.
///   1: a response is one message, in base64 and without compression;
///   2: adds responses in chunks;
///   3: adds the choice of encodings and compressions.
pub const LOCAL_PROTOCOL_VERSION: u32 = 3;

/// Whether this side can send a response in chunks.
pub const LOCAL_CHUNK_SUPPORTED: bool = true;

/// The most bytes that this side packs into one chunk, before encoding.
pub const LOCAL_MAX_CHUNK_SIZE: usize = 4096;

/// The least chunk size that is ever agreed on, however little a peer asks for.
pub const MIN_CHUNK_SIZE: usize = 256;

/// What a peer says that it supports.
#[derive(Debug)]
pub struct PeerCaps {
    pub protocol_version: u32,
    pub chunked: bool,
    pub max_chunk_size: usize,
    /// The encodings that the peer can decode, those it prefers first. Empty
    /// where it advertised none.
    pub encodings: Vec<BodyEncoding>,
    /// The compressions that the peer can undo, those it prefers first. Empty
    /// where it advertised none.
    pub compressions: Vec<Compression>,
}

/// What both sides agreed on.
#[derive(Debug)]
pub struct NegotiatedCaps {
    pub protocol_version: u32,
    pub chunked: bool,
    pub chunk_size: usize,
    /// The encodings that both sides have, those the peer prefers first.
    pub encodings: Vec<BodyEncoding>,
    /// The compressions that both sides have, those the peer prefers first.
    pub compressions: Vec<Compression>,
}

/// What a [`PeerCaps`] stands for.
#[verifier::ext_equal]
pub struct PeerCapsView {
    pub protocol_version: u32,
    pub chunked: bool,
    pub max_chunk_size: usize,
    pub encodings: Seq<Seq<char>>,
    pub compressions: Seq<Seq<char>>,
}

/// What a [`NegotiatedCaps`] stands for.
#[verifier::ext_equal]
pub struct CapsView {
    pub protocol_version: u32,
    pub chunked: bool,
    pub chunk_size: usize,
    pub encodings: Seq<Seq<char>>,
    pub compressions: Seq<Seq<char>>,
}

impl View for PeerCaps {
    type V = PeerCapsView;

    open spec fn view(&self) -> PeerCapsView {
        PeerCapsView {
            protocol_version: self.protocol_version,
            chunked: self.chunked,
            max_chunk_size: self.max_chunk_size,
            encodings: encoding_names(self.encodings@),
            compressions: compression_names(self.compressions@),
        }
    }
}

impl View for NegotiatedCaps {
    type V = CapsView;

    open spec fn view(&self) -> CapsView {
        CapsView {
            protocol_version: self.protocol_version,
            chunked: self.chunked,
            chunk_size: self.chunk_size,
            encodings: encoding_names(self.encodings@),
            compressions: compression_names(self.compressions@),
        }
    }
}

impl Clone for NegotiatedCaps {
    fn clone(&self) -> (copy: Self)
        ensures
            copy@ == self@,
    {
        let mut encodings: Vec<BodyEncoding> = Vec::new();
        let mut i: usize = 0;
        while i < self.encodings.len()
            invariant
                i <= self.encodings@.len(),
                encoding_names(encodings@) =~= encoding_names(self.encodings@).take(i as int),
            decreases self.encodings@.len() - i,
        {
            let copy: BodyEncoding = self.encodings[i].clone();
            let ghost before = encodings@;
            encodings.push(copy);
            assert(encoding_names(encodings@) =~= encoding_names(before).push(copy@));
            i += 1;
        }
        let mut compressions: Vec<Compression> = Vec::new();
        let mut j: usize = 0;
        while j < self.compressions.len()
            invariant
                j <= self.compressions@.len(),
                compression_names(compressions@) =~= compression_names(self.compressions@).take(
                    j as int,
                ),
            decreases self.compressions@.len() - j,
        {
            let copy: Compression = self.compressions[j].clone();
            let ghost before = compressions@;
            compressions.push(copy);
            assert(compression_names(compressions@) =~= compression_names(before).push(copy@));
            j += 1;
        }
        let copy = NegotiatedCaps {
            protocol_version: self.protocol_version,
            chunked: self.chunked,
            chunk_size: self.chunk_size,
            encodings,
            compressions,
        };
        assert(copy@ =~= self@);
        copy
    }
}

/// The texts in a JSON array, in order; items that are no text are left out,
/// and anything but an array has none.
pub open spec fn texts(v: Option<JsonView>) -> Seq<Seq<char>> {
    match v {
        Some(JsonView::Array(items)) => items.filter_map(|item: JsonView| item.as_str()),
        _ => Seq::empty(),
    }
}

/// Whether `out` is a result of a parser on a text.
pub open spec fn parse_result<T, F: Fn(&str) -> Option<T>>(
    parse_one: F,
    text: Seq<char>,
    out: Option<T>,
) -> bool {
    exists|s: &str| s@ == text && #[trigger] call_ensures(parse_one, (s,), out)
}

/// Whether `outs` are results of a parser on `texts`, index by index.
pub open spec fn parses<T, F: Fn(&str) -> Option<T>>(
    parse_one: F,
    texts: Seq<Seq<char>>,
    outs: Seq<Option<T>>,
) -> bool {
    &&& outs.len() == texts.len()
    &&& forall|i: int|
        0 <= i < texts.len() ==> parse_result(parse_one, texts[i], #[trigger] outs[i])
}

/// The values that are there, in order.
pub open spec fn somes<T>(outs: Seq<Option<T>>) -> Seq<T> {
    outs.filter_map(|out: Option<T>| out)
}

/// Parses the texts of a JSON array one by one and keeps, in order, what parses.
pub fn parse_string_list<T, F: Fn(&str) -> Option<T>>(v: Option<&Json>, parse_one: F) -> (list: Vec<
    T,
>)
    requires
        forall|s: &str| call_requires(parse_one, (s,)),
    ensures
        exists|outs: Seq<Option<T>>| #[trigger]
            parses(parse_one, texts(found(v)), outs) && list@ == somes(outs),
{
    let mut list: Vec<T> = Vec::new();
    let ghost mut outs: Seq<Option<T>> = Seq::empty();
    if let Some(json) = v {
        if let Some(items) = json.as_array() {
            let ghost all = items_view(items@);
            let ghost pick = |item: JsonView| item.as_str();
            proof {
                lemma_items_view(items@);
                assert(all.take(0) =~= Seq::empty());
            }
            let mut i: usize = 0;
            while i < items.len()
                invariant
                    i <= items@.len(),
                    all == items_view(items@),
                    all.len() == items@.len(),
                    forall|j: int| 0 <= j < items@.len() ==> (#[trigger] all[j]) == items@[j]@,
                    pick == (|item: JsonView| item.as_str()),
                    forall|s: &str| call_requires(parse_one, (s,)),
                    parses(parse_one, all.take(i as int).filter_map(pick), outs),
                    list@ == somes(outs),
                decreases items@.len() - i,
            {
                proof {
                    all.lemma_filter_map_take_succ(pick, i as int);
                }
                if let Some(s) = items[i].as_str() {
                    let out: Option<T> = parse_one(s);
                    proof {
                        let before = outs;
                        outs = outs.push(out);
                        assert(outs.drop_last() =~= before);
                        let now = all.take(i + 1).filter_map(pick);
                        let prev = all.take(i as int).filter_map(pick);
                        assert(now =~= prev.push(s@));
                        assert(call_ensures(parse_one, (s,), out));
                        assert forall|k: int| 0 <= k < now.len() implies parse_result(
                            parse_one,
                            now[k],
                            #[trigger] outs[k],
                        ) by {
                            if k < prev.len() {
                                assert(outs[k] == before[k] && now[k] == prev[k]);
                            }
                        }
                    }
                    if let Some(t) = out {
                        list.push(t);
                    }
                } else {
                    assert(all.take(i + 1).filter_map(pick) =~= all.take(i as int).filter_map(
                        pick,
                    ));
                }
                i += 1;
            }
            proof {
                assert(all.take(i as int) =~= all);
            }
        }
    }
    assert(parses(parse_one, texts(found(v)), outs));
    list
}

/// The encodings that some names in a message stand for, without those that are
/// not understood.
pub open spec fn understood_encodings(codecs: CodecsView, names: Seq<Seq<char>>) -> Seq<
    Seq<char>,
> {
    names.filter_map(|name: Seq<char>| codecs.encoding(name))
}

/// The same for compressions.
pub open spec fn understood_compressions(codecs: CodecsView, names: Seq<Seq<char>>) -> Seq<
    Seq<char>,
> {
    names.filter_map(|name: Seq<char>| codecs.compression(name))
}

/// The number under a key, or a default where there is none.
pub open spec fn number_or(object: JsonView, key: Seq<char>, default: u64) -> u64 {
    match object.get(key) {
        Some(v) => match v.as_u64() {
            Some(n) => n,
            None => default,
        },
        None => default,
    }
}

/// The flag under a key; `false` where there is none.
pub open spec fn flag(object: JsonView, key: Seq<char>) -> bool {
    match object.get(key) {
        Some(v) => v.as_bool() == Some(true),
        None => false,
    }
}

/// What the `caps` entry of a message says; `None` unless it is an object.
/// Numbers beyond their field's width lose their top bits.
pub open spec fn advertised(codecs: CodecsView, v: Option<JsonView>) -> Option<PeerCapsView> {
    match v {
        Some(caps) => if caps is Object {
            Some(
                PeerCapsView {
                    protocol_version: (number_or(caps, "version"@, 1) % 0x1_0000_0000) as u32,
                    chunked: flag(caps, "chunk"@),
                    max_chunk_size: number_or(caps, "maxChunkSize"@, 0) as usize,
                    encodings: understood_encodings(codecs, texts(caps.get("encodings"@))),
                    compressions: understood_compressions(codecs, texts(caps.get("compressions"@))),
                },
            )
        } else {
            None
        },
        None => None,
    }
}

/// Parsing texts one by one and naming the results is resolving the texts.
proof fn lemma_named_results<T>(
    names: Seq<Seq<char>>,
    outs: Seq<Option<T>>,
    name_of: spec_fn(T) -> Seq<char>,
    resolved: spec_fn(Seq<char>) -> Option<Seq<char>>,
)
    requires
        outs.len() == names.len(),
        forall|i: int|
            0 <= i < outs.len() ==> (match #[trigger] outs[i] {
                Some(t) => resolved(names[i]) == Some(name_of(t)),
                None => resolved(names[i]) is None,
            }),
    ensures
        somes(outs).map_values(name_of) == names.filter_map(resolved),
    decreases outs.len(),
{
    if outs.len() > 0 {
        let last = outs.len() - 1;
        assert forall|i: int| 0 <= i < outs.drop_last().len() implies (
        match #[trigger] outs.drop_last()[i] {
            Some(t) => resolved(names.drop_last()[i]) == Some(name_of(t)),
            None => resolved(names.drop_last()[i]) is None,
        }) by {
            assert(outs[i] == outs.drop_last()[i]);
        }
        lemma_named_results(names.drop_last(), outs.drop_last(), name_of, resolved);
        assert(outs[last] == outs.last());
        assert(somes(outs).map_values(name_of) =~= names.filter_map(resolved));
    } else {
        assert(somes(outs).map_values(name_of) =~= names.filter_map(resolved));
    }
}

/// Reads the number under a key, or gives a default where there is none.
fn read_number(object: &Json, key: &str, default: u64) -> (n: u64)
    ensures
        n == number_or(object@, key@, default),
{
    match object.get(key) {
        Some(v) => match v.as_u64() {
            Some(n) => n,
            None => default,
        },
        None => default,
    }
}

/// Reads the flag under a key; `false` where there is none.
fn read_flag(object: &Json, key: &str) -> (b: bool)
    ensures
        b == flag(object@, key@),
{
    match object.get(key) {
        Some(v) => match v.as_bool() {
            Some(b) => b,
            None => false,
        },
        None => false,
    }
}

/// Reads the encodings that a peer lists.
fn read_encodings(codecs: &Codecs, v: Option<&Json>) -> (list: Vec<BodyEncoding>)
    ensures
        encoding_names(list@) == understood_encodings(codecs@, texts(found(v))),
{
    let parse_one = |s: &str| -> (out: Option<BodyEncoding>)
        ensures
            out is Some <==> codecs@.encoding(s@) is Some,
            out matches Some(e) ==> Some(e@) == codecs@.encoding(s@),
        { codecs.parse_encoding(s) };
    let list: Vec<BodyEncoding> = parse_string_list(v, parse_one);
    proof {
        let names = texts(found(v));
        let outs = choose|outs: Seq<Option<BodyEncoding>>| #[trigger]
            parses(parse_one, names, outs) && list@ == somes(outs);
        lemma_named_results(
            names,
            outs,
            |e: BodyEncoding| e@,
            |name: Seq<char>| codecs@.encoding(name),
        );
    }
    list
}

/// Reads the compressions that a peer lists.
fn read_compressions(codecs: &Codecs, v: Option<&Json>) -> (list: Vec<Compression>)
    ensures
        compression_names(list@) == understood_compressions(codecs@, texts(found(v))),
{
    let parse_one = |s: &str| -> (out: Option<Compression>)
        ensures
            out is Some <==> codecs@.compression(s@) is Some,
            out matches Some(c) ==> Some(c@) == codecs@.compression(s@),
        { codecs.parse_compression(s) };
    let list: Vec<Compression> = parse_string_list(v, parse_one);
    proof {
        let names = texts(found(v));
        let outs = choose|outs: Seq<Option<Compression>>| #[trigger]
            parses(parse_one, names, outs) && list@ == somes(outs);
        lemma_named_results(
            names,
            outs,
            |c: Compression| c@,
            |name: Seq<char>| codecs@.compression(name),
        );
    }
    list
}

/// The view of capabilities that may be absent.
pub open spec fn peer_view(caps: Option<PeerCaps>) -> Option<PeerCapsView> {
    match caps {
        Some(c) => Some(c@),
        None => None,
    }
}

/// The view of agreed capabilities that may be absent.
pub open spec fn caps_view(caps: Option<NegotiatedCaps>) -> Option<CapsView> {
    match caps {
        Some(c) => Some(c@),
        None => None,
    }
}

/// Reads the `caps` entry of a message. `None` unless it is an object; an entry
/// that is missing in it, or of the wrong type, counts as version 1, no chunks,
/// no limit of the peer's own, and empty lists.
pub fn parse_caps(codecs: &Codecs, v: Option<&Json>) -> (caps: Option<PeerCaps>)
    ensures
        peer_view(caps) == advertised(codecs@, found(v)),
{
    let object: &Json = match v {
        Some(json) => json,
        None => {
            return None;
        },
    };
    if !object.is_object() {
        return None;
    }
    let version: u64 = read_number(object, "version", 1);
    assert(version as u32 == version % 0x1_0000_0000) by (bit_vector);
    let caps = PeerCaps {
        protocol_version: #[verifier::truncate] (version as u32),
        chunked: read_flag(object, "chunk"),
        max_chunk_size: #[verifier::truncate] (read_number(object, "maxChunkSize", 0) as usize),
        encodings: read_encodings(codecs, object.get("encodings")),
        compressions: read_compressions(codecs, object.get("compressions")),
    };
    assert(Some(caps@) =~= advertised(codecs@, found(v)));
    Some(caps)
}

/// The chunk size agreed on with a peer that takes at most `peer_max` bytes,
/// zero standing for no limit: as much as both take, but never less than the
/// least chunk size.
pub open spec fn agreed_chunk_size(peer_max: usize) -> usize {
    if peer_max == 0 || peer_max > LOCAL_MAX_CHUNK_SIZE {
        LOCAL_MAX_CHUNK_SIZE
    } else if peer_max < MIN_CHUNK_SIZE {
        MIN_CHUNK_SIZE
    } else {
        peer_max
    }
}

/// What this side and a peer agree on: the lower version; chunks where both have
/// them and the version does; and of the peer's lists what this side implements,
/// in the peer's order.
pub open spec fn agreed(codecs: CodecsView, peer: PeerCapsView) -> CapsView {
    let version = if peer.protocol_version < LOCAL_PROTOCOL_VERSION {
        peer.protocol_version
    } else {
        LOCAL_PROTOCOL_VERSION
    };
    let chunked = LOCAL_CHUNK_SUPPORTED && peer.chunked && version >= 2;
    CapsView {
        protocol_version: version,
        chunked,
        chunk_size: if chunked {
            agreed_chunk_size(peer.max_chunk_size)
        } else {
            0
        },
        encodings: peer.encodings.filter(
            |e: Seq<char>| codecs.supported_encodings.contains(e),
        ),
        compressions: peer.compressions.filter(
            |c: Seq<char>| codecs.supported_compressions.contains(c),
        ),
    }
}

/// Works out what to use with a peer.
pub fn negotiate(codecs: &Codecs, peer: PeerCaps) -> (caps: NegotiatedCaps)
    ensures
        caps@ == agreed(codecs@, peer@),
{
    let version: u32 = if peer.protocol_version < LOCAL_PROTOCOL_VERSION {
        peer.protocol_version
    } else {
        LOCAL_PROTOCOL_VERSION
    };
    let chunked: bool = LOCAL_CHUNK_SUPPORTED && peer.chunked && version >= 2;
    let chunk_size: usize = if chunked {
        let peer_max: usize = if peer.max_chunk_size == 0 {
            LOCAL_MAX_CHUNK_SIZE
        } else {
            peer.max_chunk_size
        };
        if peer_max > LOCAL_MAX_CHUNK_SIZE {
            LOCAL_MAX_CHUNK_SIZE
        } else if peer_max < MIN_CHUNK_SIZE {
            MIN_CHUNK_SIZE
        } else {
            peer_max
        }
    } else {
        0
    };

    let mut encodings: Vec<BodyEncoding> = Vec::new();
    let ghost names = encoding_names(peer.encodings@);
    let ghost wanted = |e: Seq<char>| codecs@.supported_encodings.contains(e);
    let mut i: usize = 0;
    assert(names.take(0) =~= Seq::empty());
    reveal(Seq::filter);
    while i < peer.encodings.len()
        invariant
            i <= peer.encodings@.len(),
            names == encoding_names(peer.encodings@),
            wanted == (|e: Seq<char>| codecs@.supported_encodings.contains(e)),
            encoding_names(encodings@) == names.take(i as int).filter(wanted),
        decreases peer.encodings@.len() - i,
    {
        proof {
            reveal(Seq::filter);
            assert(names.take(i + 1).drop_last() =~= names.take(i as int));
        }
        if codecs.supports_encoding(&peer.encodings[i]) {
            let ghost before = encodings@;
            let e: BodyEncoding = peer.encodings[i].clone();
            encodings.push(e);
            assert(encoding_names(encodings@) =~= encoding_names(before).push(e@));
        }
        i += 1;
    }
    assert(names.take(i as int) =~= names);

    let mut compressions: Vec<Compression> = Vec::new();
    let ghost comp_names = compression_names(peer.compressions@);
    let ghost comp_wanted = |c: Seq<char>| codecs@.supported_compressions.contains(c);
    let mut j: usize = 0;
    assert(comp_names.take(0) =~= Seq::empty());
    while j < peer.compressions.len()
        invariant
            j <= peer.compressions@.len(),
            comp_names == compression_names(peer.compressions@),
            comp_wanted == (|c: Seq<char>| codecs@.supported_compressions.contains(c)),
            compression_names(compressions@) == comp_names.take(j as int).filter(comp_wanted),
        decreases peer.compressions@.len() - j,
    {
        proof {
            reveal(Seq::filter);
            assert(comp_names.take(j + 1).drop_last() =~= comp_names.take(j as int));
        }
        if codecs.supports_compression(&peer.compressions[j]) {
            let ghost before = compressions@;
            let c: Compression = peer.compressions[j].clone();
            compressions.push(c);
            assert(compression_names(compressions@) =~= compression_names(before).push(c@));
        }
        j += 1;
    }
    assert(comp_names.take(j as int) =~= comp_names);

    NegotiatedCaps { protocol_version: version, chunked, chunk_size, encodings, compressions }
}

/// Some names as a JSON array.
pub open spec fn name_array(names: Seq<Seq<char>>) -> JsonView {
    JsonView::Array(names.map_values(|name: Seq<char>| JsonView::Text(name)))
}

/// What this side advertises.
pub open spec fn local_caps(codecs: CodecsView) -> JsonView {
    JsonView::Object(
        map![
            "version"@ => JsonView::Integer(LOCAL_PROTOCOL_VERSION as int),
            "chunk"@ => JsonView::Bool(LOCAL_CHUNK_SUPPORTED),
            "maxChunkSize"@ => JsonView::Integer(LOCAL_MAX_CHUNK_SIZE as int),
            "encodings"@ => name_array(codecs.supported_encodings),
            "compressions"@ => name_array(codecs.supported_compressions),
        ],
    )
}

/// Builds what this side advertises.
pub fn local_caps_value(codecs: &Codecs) -> (json: Json)
    ensures
        json@ == local_caps(codecs@),
{
    let mut encodings: Vec<Json> = Vec::new();
    proof {
        lemma_no_items();
        lemma_no_entries();
    }
    assert(items_view(encodings@) =~= Seq::empty());
    let mut i: usize = 0;
    while i < codecs.supported_encodings.len()
        invariant
            i <= codecs.supported_encodings@.len(),
            items_view(encodings@) =~= codecs@.supported_encodings.take(i as int).map_values(
                |name: Seq<char>| JsonView::Text(name),
            ),
        decreases codecs.supported_encodings@.len() - i,
    {
        append(&mut encodings, Json::Text(codecs.supported_encodings[i].as_str().to_string()));
        i += 1;
    }
    let mut compressions: Vec<Json> = Vec::new();
    let mut j: usize = 0;
    while j < codecs.supported_compressions.len()
        invariant
            j <= codecs.supported_compressions@.len(),
            items_view(compressions@) =~= codecs@.supported_compressions.take(j as int).map_values(
                |name: Seq<char>| JsonView::Text(name),
            ),
        decreases codecs.supported_compressions@.len() - j,
    {
        append(&mut compressions, Json::Text(codecs.supported_compressions[j].as_str().to_string()));
        j += 1;
    }
    assert(codecs@.supported_encodings.take(i as int) =~= codecs@.supported_encodings);
    assert(codecs@.supported_compressions.take(j as int) =~= codecs@.supported_compressions);
    let encodings: Json = Json::array(encodings);
    let compressions: Json = Json::array(compressions);
    assert(encodings@ =~= name_array(codecs@.supported_encodings));
    assert(compressions@ =~= name_array(codecs@.supported_compressions));
    let mut entries: Vec<(String, Json)> = Vec::new();
    assert(entries_view(entries@) =~= Map::empty());
    put(&mut entries, "version", Json::Integer(LOCAL_PROTOCOL_VERSION as i128));
    put(&mut entries, "chunk", Json::Bool(LOCAL_CHUNK_SUPPORTED));
    put(&mut entries, "maxChunkSize", Json::Integer(LOCAL_MAX_CHUNK_SIZE as i128));
    put(&mut entries, "encodings", encodings);
    put(&mut entries, "compressions", compressions);
    let json: Json = Json::object(entries);
    assert(json@ =~= local_caps(codecs@));
    json
}

/// What every agreement keeps to: a version that this side speaks, and a chunk
/// size within both bounds where there are chunks, zero where there are none.
pub open spec fn within_bounds(caps: CapsView) -> bool {
    &&& caps.protocol_version <= LOCAL_PROTOCOL_VERSION
    &&& if caps.chunked {
        caps.protocol_version >= 2 && MIN_CHUNK_SIZE <= caps.chunk_size <= LOCAL_MAX_CHUNK_SIZE
    } else {
        caps.chunk_size == 0
    }
}

/// Whatever a peer advertises, the agreement keeps within this side's bounds, and
/// no version above the peer's is agreed on. There are chunks exactly where the
/// peer has them and speaks version 2 or later.
pub proof fn law_agreement_is_within_bounds(codecs: CodecsView, peer: PeerCapsView)
    ensures
        within_bounds(agreed(codecs, peer)),
        agreed(codecs, peer).protocol_version <= peer.protocol_version,
        agreed(codecs, peer).chunked <==> peer.chunked && peer.protocol_version >= 2,
{
}

/// The agreed codecs are those that the peer lists and this side implements.
pub proof fn law_agreed_codecs_are_common(codecs: CodecsView, peer: PeerCapsView, name: Seq<char>)
    ensures
        agreed(codecs, peer).encodings.contains(name) <==> peer.encodings.contains(name)
            && codecs.supported_encodings.contains(name),
        agreed(codecs, peer).compressions.contains(name) <==> peer.compressions.contains(name)
            && codecs.supported_compressions.contains(name),
{
    lemma_filter_contains(
        peer.encodings,
        |e: Seq<char>| codecs.supported_encodings.contains(e),
        name,
    );
    lemma_filter_contains(
        peer.compressions,
        |c: Seq<char>| codecs.supported_compressions.contains(c),
        name,
    );
}

/// Whether `x` stands somewhere before `y`.
pub open spec fn stands_before<A>(s: Seq<A>, x: A, y: A) -> bool {
    exists|p: int, q: int| 0 <= p < q < s.len() && #[trigger] s[p] == x && #[trigger] s[q] == y
}

/// Whether `sub` keeps an order that `full` has: of any two of its items, the
/// earlier also stands before the later in `full`.
pub open spec fn keeps_order<A>(sub: Seq<A>, full: Seq<A>) -> bool {
    forall|i: int, j: int|
        0 <= i < j < sub.len() ==> stands_before(full, #[trigger] sub[i], #[trigger] sub[j])
}

/// The agreed codecs stand in the order in which the peer prefers them.
pub proof fn law_peer_preference_is_kept(codecs: CodecsView, peer: PeerCapsView)
    ensures
        keeps_order(agreed(codecs, peer).encodings, peer.encodings),
        keeps_order(agreed(codecs, peer).compressions, peer.compressions),
{
    lemma_filter_keeps_order(
        peer.encodings,
        |e: Seq<char>| codecs.supported_encodings.contains(e),
    );
    lemma_filter_keeps_order(
        peer.compressions,
        |c: Seq<char>| codecs.supported_compressions.contains(c),
    );
}

/// Filtering keeps the order.
proof fn lemma_filter_keeps_order<A>(s: Seq<A>, pass: spec_fn(A) -> bool)
    ensures
        keeps_order(s.filter(pass), s),
    decreases s.len(),
{
    reveal(Seq::filter);
    if s.len() > 0 {
        let rest = s.drop_last();
        let kept = rest.filter(pass);
        let all = s.filter(pass);
        lemma_filter_keeps_order(rest, pass);
        assert forall|i: int, j: int| 0 <= i < j < all.len() implies stands_before(
            s,
            #[trigger] all[i],
            #[trigger] all[j],
        ) by {
            if j < kept.len() {
                assert(all[i] == kept[i] && all[j] == kept[j]);
                assert(stands_before(rest, kept[i], kept[j]));
                let (p, q) = choose|p: int, q: int|
                    0 <= p < q < rest.len() && #[trigger] rest[p] == kept[i] && #[trigger] rest[q]
                        == kept[j];
                assert(s[p] == all[i] && s[q] == all[j]);
            } else {
                assert(all[i] == kept[i]);
                assert(kept.contains(kept[i]));
                lemma_filter_contains(rest, pass, kept[i]);
                let p = choose|p: int| 0 <= p < rest.len() && rest[p] == kept[i];
                assert(s[p] == all[i] && s[s.len() - 1] == all[j]);
            }
        }
    }
}

/// A filtered sequence holds the items of the sequence that pass.
proof fn lemma_filter_contains<A>(s: Seq<A>, pass: spec_fn(A) -> bool, item: A)
    ensures
        s.filter(pass).contains(item) <==> s.contains(item) && pass(item),
    decreases s.len(),
{
    reveal(Seq::filter);
    if s.len() > 0 {
        let rest = s.drop_last();
        let kept = rest.filter(pass);
        lemma_filter_contains(rest, pass, item);
        assert(s =~= rest.push(s.last()));
        assert(s.contains(item) <==> rest.contains(item) || item == s.last()) by {
            if rest.contains(item) {
                let k = choose|k: int| 0 <= k < rest.len() && rest[k] == item;
                assert(s[k] == item);
            }
            if item == s.last() {
                assert(s[s.len() - 1] == item);
            }
        }
        if pass(s.last()) {
            assert(s.filter(pass) == kept.push(s.last()));
            assert(kept.push(s.last()).contains(item) <==> kept.contains(item) || item == s.last())
                by {
                if kept.contains(item) {
                    let k = choose|k: int| 0 <= k < kept.len() && kept[k] == item;
                    assert(kept.push(s.last())[k] == item);
                }
                if item == s.last() {
                    assert(kept.push(s.last())[kept.len() as int] == item);
                }
            }
        }
    }
}

/// A sequence whose items all pass is what its filter gives.
proof fn lemma_filter_all<A>(s: Seq<A>, pass: spec_fn(A) -> bool)
    requires
        forall|i: int| 0 <= i < s.len() ==> pass(#[trigger] s[i]),
    ensures
        s.filter(pass) == s,
    decreases s.len(),
{
    reveal(Seq::filter);
    if s.len() > 0 {
        assert forall|i: int| 0 <= i < s.drop_last().len() implies pass(
            #[trigger] s.drop_last()[i],
        ) by {
            assert(s[i] == s.drop_last()[i]);
        }
        lemma_filter_all(s.drop_last(), pass);
        assert(pass(s[s.len() - 1]));
        assert(s.drop_last().push(s.last()) =~= s);
    }
}

/// Where a partial function maps every item, `filter_map` keeps one for each.
proof fn lemma_filter_map_total<A, B>(s: Seq<A>, f: spec_fn(A) -> Option<B>, t: Seq<B>)
    requires
        s.len() == t.len(),
        forall|i: int| 0 <= i < s.len() ==> f(#[trigger] s[i]) == Some(t[i]),
    ensures
        s.filter_map(f) == t,
    decreases s.len(),
{
    if s.len() > 0 {
        assert forall|i: int| 0 <= i < s.drop_last().len() implies f(
            #[trigger] s.drop_last()[i],
        ) == Some(t.drop_last()[i]) by {
            assert(s[i] == s.drop_last()[i]);
        }
        lemma_filter_map_total(s.drop_last(), f, t.drop_last());
        assert(f(s[s.len() - 1]) == Some(t[s.len() - 1]));
        assert(s.filter_map(f) =~= t);
    } else {
        assert(s.filter_map(f) =~= t);
    }
}

/// A list of names that went into a message comes out of it.
proof fn lemma_name_array_texts(names: Seq<Seq<char>>)
    ensures
        texts(Some(name_array(names))) == names,
{
    lemma_filter_map_total(
        names.map_values(|name: Seq<char>| JsonView::Text(name)),
        |item: JsonView| item.as_str(),
        names,
    );
}

/// The keys of a capability message are distinct.
proof fn lemma_caps_keys_differ()
    ensures
        "version"@ != "chunk"@,
        "version"@ != "maxChunkSize"@,
        "version"@ != "encodings"@,
        "version"@ != "compressions"@,
        "chunk"@ != "maxChunkSize"@,
        "chunk"@ != "encodings"@,
        "chunk"@ != "compressions"@,
        "maxChunkSize"@ != "encodings"@,
        "maxChunkSize"@ != "compressions"@,
        "encodings"@ != "compressions"@,
{
    reveal_strlit("version");
    reveal_strlit("chunk");
    reveal_strlit("maxChunkSize");
    reveal_strlit("encodings");
    reveal_strlit("compressions");
    assert("version"@.len() == 7);
    assert("chunk"@.len() == 5);
    assert("maxChunkSize"@[0] == 'm');
    assert("encodings"@.len() == 9);
    assert("compressions"@[0] == 'c');
}

/// What this side advertises, read back.
pub open spec fn local_offer(codecs: CodecsView) -> PeerCapsView {
    PeerCapsView {
        protocol_version: LOCAL_PROTOCOL_VERSION,
        chunked: LOCAL_CHUNK_SUPPORTED,
        max_chunk_size: LOCAL_MAX_CHUNK_SIZE,
        encodings: codecs.supported_encodings,
        compressions: codecs.supported_compressions,
    }
}

/// A peer that knows every name that this side advertises reads exactly what this
/// side meant.
pub proof fn law_advertised_caps_read_back(here: CodecsView, there: CodecsView)
    requires
        forall|i: int|
            0 <= i < here.supported_encodings.len() ==> there.encoding(
                #[trigger] here.supported_encodings[i],
            ) == Some(here.supported_encodings[i]),
        forall|i: int|
            0 <= i < here.supported_compressions.len() ==> there.compression(
                #[trigger] here.supported_compressions[i],
            ) == Some(here.supported_compressions[i]),
    ensures
        advertised(there, Some(local_caps(here))) == Some(local_offer(here)),
{
    let caps = local_caps(here);
    lemma_caps_keys_differ();
    lemma_name_array_texts(here.supported_encodings);
    lemma_name_array_texts(here.supported_compressions);
    lemma_filter_map_total(
        here.supported_encodings,
        |name: Seq<char>| there.encoding(name),
        here.supported_encodings,
    );
    lemma_filter_map_total(
        here.supported_compressions,
        |name: Seq<char>| there.compression(name),
        here.supported_compressions,
    );
    assert(caps.get("version"@) == Some(JsonView::Integer(LOCAL_PROTOCOL_VERSION as int)));
    assert(caps.get("chunk"@) == Some(JsonView::Bool(LOCAL_CHUNK_SUPPORTED)));
    assert(caps.get("maxChunkSize"@) == Some(JsonView::Integer(LOCAL_MAX_CHUNK_SIZE as int)));
    assert(caps.get("encodings"@) == Some(name_array(here.supported_encodings)));
    assert(caps.get("compressions"@) == Some(name_array(here.supported_compressions)));
}

/// Two sides alike agree on everything that they have: the current version,
/// chunks of the full size, and every codec.
pub proof fn law_like_sides_agree_on_everything(codecs: CodecsView)
    requires
        codecs.consistent(),
    ensures
        advertised(codecs, Some(local_caps(codecs))) is Some,
        agreed(codecs, advertised(codecs, Some(local_caps(codecs)))->0) == (CapsView {
            protocol_version: LOCAL_PROTOCOL_VERSION,
            chunked: LOCAL_CHUNK_SUPPORTED,
            chunk_size: LOCAL_MAX_CHUNK_SIZE,
            encodings: codecs.supported_encodings,
            compressions: codecs.supported_compressions,
        }),
{
    law_advertised_caps_read_back(codecs, codecs);
    lemma_filter_all(
        codecs.supported_encodings,
        |e: Seq<char>| codecs.supported_encodings.contains(e),
    );
    lemma_filter_all(
        codecs.supported_compressions,
        |c: Seq<char>| codecs.supported_compressions.contains(c),
    );
}

/// Where chunks are agreed on, they are never larger than what the peer takes, but for
/// the least size of 256 bytes, and never larger than 4096 bytes. A peer whose limit
/// lies between the two gets chunks of exactly its limit, and one without a limit gets
/// the largest.
pub proof fn law_chunk_size_respects_the_peer(codecs: CodecsView, peer: PeerCapsView)
    requires
        agreed(codecs, peer).chunked,
    ensures
        ({
            let size = agreed(codecs, peer).chunk_size;
            let limit = peer.max_chunk_size;
            &&& 256 <= size <= 4096
            &&& limit != 0 ==> size <= limit || size == 256
            &&& 256 <= limit <= 4096 ==> size == limit
            &&& limit == 0 || limit > 4096 ==> size == 4096
            &&& 0 < limit < 256 ==> size == 256
        }),
{
}

/// A peer that takes larger chunks never gets smaller ones.
pub proof fn law_chunk_size_grows_with_the_limit(
    codecs: CodecsView,
    peer: PeerCapsView,
    other: PeerCapsView,
)
    requires
        agreed(codecs, peer).chunked,
        agreed(codecs, other).chunked,
        0 < peer.max_chunk_size <= other.max_chunk_size,
    ensures
        agreed(codecs, peer).chunk_size <= agreed(codecs, other).chunk_size,
{
}

/// What negotiating returns, in numbers: the peer's version, or 3 where it is later;
/// chunks exactly where the peer has them and speaks version 2 or later; the peer's
/// limit for them, kept between 256 and 4096, with zero for no limit; and a chunk size
/// of zero where there are none. None of it rests on the codecs.
pub proof fn law_negotiated_numbers(codecs: &Codecs, peer: PeerCaps, caps: NegotiatedCaps)
    requires
        call_ensures(negotiate, (codecs, peer), caps),
    ensures
        peer.protocol_version <= 3 ==> caps.protocol_version == peer.protocol_version,
        peer.protocol_version > 3 ==> caps.protocol_version == 3,
        caps.chunked <==> peer.chunked && peer.protocol_version >= 2,
        !caps.chunked ==> caps.chunk_size == 0,
        caps.chunked && 256 <= peer.max_chunk_size <= 4096 ==> caps.chunk_size
            == peer.max_chunk_size,
        caps.chunked && 0 < peer.max_chunk_size < 256 ==> caps.chunk_size == 256,
        caps.chunked && (peer.max_chunk_size == 0 || peer.max_chunk_size > 4096)
            ==> caps.chunk_size == 4096,
{
    assert(caps@ == agreed(codecs@, peer@));
}

/// One item more at the end of a list passes a filter or does not, and changes nothing
/// else.
proof fn lemma_filter_push<A>(s: Seq<A>, item: A, pass: spec_fn(A) -> bool)
    ensures
        s.push(item).filter(pass) == if pass(item) {
            s.filter(pass).push(item)
        } else {
            s.filter(pass)
        },
{
    reveal(Seq::filter);
    assert(s.push(item).drop_last() =~= s);
}

/// One item more at the end of a list is mapped or left out, and changes nothing else.
proof fn lemma_filter_map_push<A, B>(s: Seq<A>, item: A, f: spec_fn(A) -> Option<B>)
    ensures
        s.push(item).filter_map(f) == match f(item) {
            Some(b) => s.filter_map(f).push(b),
            None => s.filter_map(f),
        },
{
    assert(s.push(item).drop_last() =~= s);
    if let Some(b) = f(item) {
        assert(s.push(item).filter_map(f) =~= s.filter_map(f).push(b));
    }
}

/// Whether one list of encodings has the names of another, and then one more or none.
pub open spec fn encodings_extend(
    longer: Seq<BodyEncoding>,
    shorter: Seq<BodyEncoding>,
    more: Option<Seq<char>>,
) -> bool {
    &&& longer.len() == shorter.len() + if more is Some {
        1int
    } else {
        0
    }
    &&& forall|i: int|
        0 <= i < shorter.len() ==> (#[trigger] longer[i]).name@ == shorter[i].name@
    &&& more matches Some(name) ==> longer[shorter.len() as int].name@ == name
}

/// The same for compressions.
pub open spec fn compressions_extend(
    longer: Seq<Compression>,
    shorter: Seq<Compression>,
    more: Option<Seq<char>>,
) -> bool {
    &&& longer.len() == shorter.len() + if more is Some {
        1int
    } else {
        0
    }
    &&& forall|i: int|
        0 <= i < shorter.len() ==> (#[trigger] longer[i]).name@ == shorter[i].name@
    &&& more matches Some(name) ==> longer[shorter.len() as int].name@ == name
}

/// Lists whose names extend each other do so item by item.
proof fn lemma_encodings_extend(
    longer: Seq<BodyEncoding>,
    shorter: Seq<BodyEncoding>,
    more: Option<Seq<char>>,
)
    requires
        encoding_names(longer) == match more {
            Some(name) => encoding_names(shorter).push(name),
            None => encoding_names(shorter),
        },
    ensures
        encodings_extend(longer, shorter, more),
{
    assert(encoding_names(longer).len() == longer.len());
    assert(encoding_names(shorter).len() == shorter.len());
    assert forall|i: int| 0 <= i < shorter.len() implies (#[trigger] longer[i]).name@
        == shorter[i].name@ by {
        assert(encoding_names(longer)[i] == encoding_names(shorter)[i]);
    }
    if let Some(name) = more {
        assert(encoding_names(longer)[shorter.len() as int] == name);
    }
}

/// The same for compressions.
proof fn lemma_compressions_extend(
    longer: Seq<Compression>,
    shorter: Seq<Compression>,
    more: Option<Seq<char>>,
)
    requires
        compression_names(longer) == match more {
            Some(name) => compression_names(shorter).push(name),
            None => compression_names(shorter),
        },
    ensures
        compressions_extend(longer, shorter, more),
{
    assert(compression_names(longer).len() == longer.len());
    assert(compression_names(shorter).len() == shorter.len());
    assert forall|i: int| 0 <= i < shorter.len() implies (#[trigger] longer[i]).name@
        == shorter[i].name@ by {
        assert(compression_names(longer)[i] == compression_names(shorter)[i]);
    }
    if let Some(name) = more {
        assert(compression_names(longer)[shorter.len() as int] == name);
    }
}

/// Negotiating goes through the peer's encodings one by one: a peer that lists one more
/// at the end gets it as well, at the end, exactly where this side supports it, however
/// often it is listed and whatever else the two peers say. A peer that lists none gets
/// none.
pub proof fn law_encodings_are_negotiated_one_by_one(
    codecs: &Codecs,
    peer: PeerCaps,
    more: PeerCaps,
    encoding: BodyEncoding,
    supported: bool,
    caps: NegotiatedCaps,
    more_caps: NegotiatedCaps,
)
    requires
        call_ensures(negotiate, (codecs, peer), caps),
        call_ensures(negotiate, (codecs, more), more_caps),
        call_ensures(Codecs::supports_encoding, (codecs, &encoding), supported),
        more.encodings@ == peer.encodings@.push(encoding),
    ensures
        encodings_extend(
            more_caps.encodings@,
            caps.encodings@,
            if supported {
                Some(encoding.name@)
            } else {
                None
            },
        ),
        peer.encodings@.len() == 0 ==> caps.encodings@.len() == 0,
{
    let pass = |e: Seq<char>| codecs@.supported_encodings.contains(e);
    let names = encoding_names(peer.encodings@);
    assert(encoding_names(more.encodings@) =~= names.push(encoding@));
    lemma_filter_push(names, encoding@, pass);
    assert(caps@ == agreed(codecs@, peer@));
    assert(more_caps@ == agreed(codecs@, more@));
    assert(encoding_names(caps.encodings@) == names.filter(pass));
    assert(encoding_names(more_caps.encodings@) == names.push(encoding@).filter(pass));
    lemma_encodings_extend(
        more_caps.encodings@,
        caps.encodings@,
        if supported {
            Some(encoding.name@)
        } else {
            None
        },
    );
    if peer.encodings@.len() == 0 {
        reveal(Seq::filter);
        assert(encoding_names(caps.encodings@).len() == 0);
    }
}

/// Negotiating goes through the peer's compressions one by one, as through its
/// encodings.
pub proof fn law_compressions_are_negotiated_one_by_one(
    codecs: &Codecs,
    peer: PeerCaps,
    more: PeerCaps,
    compression: Compression,
    supported: bool,
    caps: NegotiatedCaps,
    more_caps: NegotiatedCaps,
)
    requires
        call_ensures(negotiate, (codecs, peer), caps),
        call_ensures(negotiate, (codecs, more), more_caps),
        call_ensures(Codecs::supports_compression, (codecs, &compression), supported),
        more.compressions@ == peer.compressions@.push(compression),
    ensures
        compressions_extend(
            more_caps.compressions@,
            caps.compressions@,
            if supported {
                Some(compression.name@)
            } else {
                None
            },
        ),
        peer.compressions@.len() == 0 ==> caps.compressions@.len() == 0,
{
    let pass = |c: Seq<char>| codecs@.supported_compressions.contains(c);
    let names = compression_names(peer.compressions@);
    assert(compression_names(more.compressions@) =~= names.push(compression@));
    lemma_filter_push(names, compression@, pass);
    assert(caps@ == agreed(codecs@, peer@));
    assert(more_caps@ == agreed(codecs@, more@));
    assert(compression_names(caps.compressions@) == names.filter(pass));
    assert(compression_names(more_caps.compressions@) == names.push(compression@).filter(pass));
    lemma_compressions_extend(
        more_caps.compressions@,
        caps.compressions@,
        if supported {
            Some(compression.name@)
        } else {
            None
        },
    );
    if peer.compressions@.len() == 0 {
        reveal(Seq::filter);
        assert(compression_names(caps.compressions@).len() == 0);
    }
}

/// Capabilities are read out of an object and out of nothing else. The version is the
/// integer under `version`, and 1 where that is no integer from zero up; chunks are
/// taken exactly where `chunk` is `true`; and the limit is the integer under
/// `maxChunkSize`, and zero where that is no integer from zero up. What is under one key
/// has no bearing on what is read from another.
pub proof fn law_capabilities_are_read_by_key(
    codecs: &Codecs,
    v: Option<&Json>,
    caps: Option<PeerCaps>,
)
    requires
        call_ensures(parse_caps, (codecs, v), caps),
    ensures
        caps is Some <==> v is Some && v->0@ is Object,
        caps matches Some(c) ==> {
            let object = v->0@;
            &&& match object.get("version"@) {
                Some(JsonView::Integer(n)) => if 0 <= n <= u32::MAX {
                    c.protocol_version == n
                } else if 0 <= n <= u64::MAX {
                    c.protocol_version == n % 0x1_0000_0000
                } else {
                    c.protocol_version == 1
                },
                _ => c.protocol_version == 1,
            }
            &&& c.chunked <==> object.get("chunk"@) == Some(JsonView::Bool(true))
            &&& match object.get("maxChunkSize"@) {
                Some(JsonView::Integer(n)) => {
                    &&& 0 <= n <= usize::MAX ==> c.max_chunk_size == n
                    &&& n < 0 || n > u64::MAX ==> c.max_chunk_size == 0
                },
                _ => c.max_chunk_size == 0,
            }
            &&& !(object.get("encodings"@) matches Some(JsonView::Array(_)))
                ==> c.encodings@.len() == 0
            &&& !(object.get("compressions"@) matches Some(JsonView::Array(_)))
                ==> c.compressions@.len() == 0
            &&& object.get("encodings"@) == Some(JsonView::Array(Seq::empty()))
                ==> c.encodings@.len() == 0
            &&& object.get("compressions"@) == Some(JsonView::Array(Seq::empty()))
                ==> c.compressions@.len() == 0
        },
{
    if let Some(c) = caps {
        let object = v->0@;
        assert(advertised(codecs@, Some(object)) == Some(c@));
        assert(encoding_names(c.encodings@).len() == c.encodings@.len());
        assert(compression_names(c.compressions@).len() == c.compressions@.len());
        assert(c@.encodings == understood_encodings(codecs@, texts(object.get("encodings"@))));
        assert(c@.compressions == understood_compressions(
            codecs@,
            texts(object.get("compressions"@)),
        ));
        assert(Seq::<JsonView>::empty().filter_map(|item: JsonView| item.as_str()).len() == 0);
        assert(understood_encodings(codecs@, Seq::empty()).len() == 0);
        assert(understood_compressions(codecs@, Seq::empty()).len() == 0);
    }
}

/// The encodings that a peer lists are read one by one: one more item at the end adds
/// what it stands for where it is a text that is understood, and nothing otherwise,
/// whatever else the two objects hold.
pub proof fn law_listed_encodings_are_read_one_by_one(
    codecs: &Codecs,
    json: &Json,
    more: &Json,
    items: Seq<JsonView>,
    item: JsonView,
    spelling: &str,
    encoding: Option<BodyEncoding>,
    caps: PeerCaps,
    more_caps: PeerCaps,
)
    requires
        call_ensures(parse_caps, (codecs, Some(json)), Some(caps)),
        call_ensures(parse_caps, (codecs, Some(more)), Some(more_caps)),
        call_ensures(Codecs::parse_encoding, (codecs, spelling), encoding),
        json@.get("encodings"@) == Some(JsonView::Array(items)),
        more@.get("encodings"@) == Some(JsonView::Array(items.push(item))),
        item is Text ==> item == JsonView::Text(spelling@),
    ensures
        encodings_extend(
            more_caps.encodings@,
            caps.encodings@,
            if item is Text && encoding is Some {
                Some(encoding->0.name@)
            } else {
                None
            },
        ),
{
    let pick = |item: JsonView| item.as_str();
    let known = |name: Seq<char>| codecs@.encoding(name);
    let names = items.filter_map(pick);
    assert(advertised(codecs@, Some(json@)) == Some(caps@));
    assert(advertised(codecs@, Some(more@)) == Some(more_caps@));
    lemma_filter_map_push(items, item, pick);
    if item is Text {
        lemma_filter_map_push(names, spelling@, known);
    }
    assert(encoding_names(caps.encodings@) == names.filter_map(known));
    lemma_encodings_extend(
        more_caps.encodings@,
        caps.encodings@,
        if item is Text && encoding is Some {
            Some(encoding->0.name@)
        } else {
            None
        },
    );
}

/// The compressions that a peer lists are read one by one, as its encodings are.
pub proof fn law_listed_compressions_are_read_one_by_one(
    codecs: &Codecs,
    json: &Json,
    more: &Json,
    items: Seq<JsonView>,
    item: JsonView,
    spelling: &str,
    compression: Option<Compression>,
    caps: PeerCaps,
    more_caps: PeerCaps,
)
    requires
        call_ensures(parse_caps, (codecs, Some(json)), Some(caps)),
        call_ensures(parse_caps, (codecs, Some(more)), Some(more_caps)),
        call_ensures(Codecs::parse_compression, (codecs, spelling), compression),
        json@.get("compressions"@) == Some(JsonView::Array(items)),
        more@.get("compressions"@) == Some(JsonView::Array(items.push(item))),
        item is Text ==> item == JsonView::Text(spelling@),
    ensures
        compressions_extend(
            more_caps.compressions@,
            caps.compressions@,
            if item is Text && compression is Some {
                Some(compression->0.name@)
            } else {
                None
            },
        ),
{
    let pick = |item: JsonView| item.as_str();
    let known = |name: Seq<char>| codecs@.compression(name);
    let names = items.filter_map(pick);
    assert(advertised(codecs@, Some(json@)) == Some(caps@));
    assert(advertised(codecs@, Some(more@)) == Some(more_caps@));
    lemma_filter_map_push(items, item, pick);
    if item is Text {
        lemma_filter_map_push(names, spelling@, known);
    }
    assert(compression_names(caps.compressions@) == names.filter_map(known));
    lemma_compressions_extend(
        more_caps.compressions@,
        caps.compressions@,
        if item is Text && compression is Some {
            Some(compression->0.name@)
        } else {
            None
        },
    );
}

/// This side advertises version 3, chunks, a limit of 4096 bytes, and the names of what
/// it supports in its own order; and nothing else.
pub proof fn law_local_caps_are_complete(codecs: &Codecs, json: Json)
    requires
        call_ensures(local_caps_value, (codecs,), json),
    ensures
        json@ matches JsonView::Object(m) && {
            &&& m.dom() =~= set![
                "version"@,
                "chunk"@,
                "maxChunkSize"@,
                "encodings"@,
                "compressions"@,
            ]
            &&& m["version"@] == JsonView::Integer(3)
            &&& m["chunk"@] == JsonView::Bool(true)
            &&& m["maxChunkSize"@] == JsonView::Integer(4096)
            &&& m["encodings"@] matches JsonView::Array(items) && items.len()
                == codecs.supported_encodings@.len() && (forall|i: int|
                0 <= i < items.len() ==> (#[trigger] items[i]) == JsonView::Text(
                    codecs.supported_encodings@[i].name@,
                ))
            &&& m["compressions"@] matches JsonView::Array(items) && items.len()
                == codecs.supported_compressions@.len() && (forall|i: int|
                0 <= i < items.len() ==> (#[trigger] items[i]) == JsonView::Text(
                    codecs.supported_compressions@[i].name@,
                ))
        },
{
    lemma_caps_keys_differ();
    assert(json@ == local_caps(codecs@));
}

/// A list of texts is parsed item by item, in order: the texts of an array are those of
/// its items that are texts, each as often as it stands there; anything but an array has
/// none; and of the results those that are there are kept.
pub proof fn law_string_lists_are_parsed_in_order<T>(
    items: Seq<JsonView>,
    item: JsonView,
    other: JsonView,
    outs: Seq<Option<T>>,
    out: Option<T>,
)
    requires
        !(other is Array),
    ensures
        texts(None).len() == 0,
        texts(Some(other)).len() == 0,
        texts(Some(JsonView::Array(Seq::empty()))).len() == 0,
        texts(Some(JsonView::Array(items.push(item)))) == match item {
            JsonView::Text(s) => texts(Some(JsonView::Array(items))).push(s),
            _ => texts(Some(JsonView::Array(items))),
        },
        somes(Seq::<Option<T>>::empty()).len() == 0,
        somes(outs.push(out)) == match out {
            Some(t) => somes(outs).push(t),
            None => somes(outs),
        },
{
    lemma_filter_map_push(items, item, |item: JsonView| item.as_str());
    lemma_filter_map_push(outs, out, |out: Option<T>| out);
}

} // verus!
