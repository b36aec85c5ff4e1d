//! Body encodings and compressions, and which of them this side implements.

use crate::text::same_text;
use vstd::prelude::*;

verus! {

/// A body encoding, identified by the name that it has in messages.
#[derive(Debug)]
pub struct BodyEncoding {
    pub name: String,
}

/// A body compression, identified by the name that it has in messages.
#[derive(Debug)]
pub struct Compression {
    pub name: String,
}

impl View for BodyEncoding {
    type V = Seq<char>;

    open spec fn view(&self) -> Seq<char> {
        self.name@
    }
}

impl View for Compression {
    type V = Seq<char>;

    open spec fn view(&self) -> Seq<char> {
        self.name@
    }
}

impl Clone for BodyEncoding {
    fn clone(&self) -> (copy: Self)
        ensures
            copy@ == self@,
    {
        BodyEncoding { name: self.name.clone() }
    }
}

impl Clone for Compression {
    fn clone(&self) -> (copy: Self)
        ensures
            copy@ == self@,
    {
        Compression { name: self.name.clone() }
    }
}

impl BodyEncoding {
    /// The encoding of a given name.
    pub fn named(name: &str) -> (encoding: Self)
        ensures
            encoding@ == name@,
    {
        BodyEncoding { name: name.to_string() }
    }

    /// The name in messages.
    pub fn as_str(&self) -> (name: &str)
        ensures
            name@ == self@,
    {
        self.name.as_str()
    }
}

impl Compression {
    /// The compression of a given name.
    pub fn named(name: &str) -> (compression: Self)
        ensures
            compression@ == name@,
    {
        Compression { name: name.to_string() }
    }

    /// The name in messages.
    pub fn as_str(&self) -> (name: &str)
        ensures
            name@ == self@,
    {
        self.name.as_str()
    }
}

/// The names in a list of encodings.
pub open spec fn encoding_names(list: Seq<BodyEncoding>) -> Seq<Seq<char>> {
    list.map_values(|e: BodyEncoding| e@)
}

/// The names in a list of compressions.
pub open spec fn compression_names(list: Seq<Compression>) -> Seq<Seq<char>> {
    list.map_values(|c: Compression| c@)
}

/// A table of spellings: each with the name that it stands for.
pub open spec fn spellings(table: Seq<(String, String)>) -> Seq<(Seq<char>, Seq<char>)> {
    table.map_values(|row: (String, String)| (row.0@, row.1@))
}

/// The name that a spelling stands for, by the first row that has it.
pub open spec fn resolve(table: Seq<(Seq<char>, Seq<char>)>, spelling: Seq<char>) -> Option<
    Seq<char>,
>
    decreases table.len(),
{
    if table.len() == 0 {
        None
    } else if table[0].0 == spelling {
        Some(table[0].1)
    } else {
        resolve(table.skip(1), spelling)
    }
}

/// The codecs that this side knows and implements.
#[derive(Debug)]
pub struct Codecs {
    /// The spellings of encodings that are understood, each with the
    /// encoding's name.
    pub encoding_spellings: Vec<(String, String)>,
    /// The same for compressions.
    pub compression_spellings: Vec<(String, String)>,
    /// The encodings that are implemented, in the order they are advertised.
    pub supported_encodings: Vec<BodyEncoding>,
    /// The compressions that are implemented, in the order they are advertised.
    pub supported_compressions: Vec<Compression>,
}

/// What a [`Codecs`] stands for.
#[verifier::ext_equal]
pub struct CodecsView {
    pub encoding_spellings: Seq<(Seq<char>, Seq<char>)>,
    pub compression_spellings: Seq<(Seq<char>, Seq<char>)>,
    pub supported_encodings: Seq<Seq<char>>,
    pub supported_compressions: Seq<Seq<char>>,
}

impl View for Codecs {
    type V = CodecsView;

    open spec fn view(&self) -> CodecsView {
        CodecsView {
            encoding_spellings: spellings(self.encoding_spellings@),
            compression_spellings: spellings(self.compression_spellings@),
            supported_encodings: encoding_names(self.supported_encodings@),
            supported_compressions: compression_names(self.supported_compressions@),
        }
    }
}

impl CodecsView {
    /// The encoding that a name in a message stands for.
    pub open spec fn encoding(self, spelling: Seq<char>) -> Option<Seq<char>> {
        resolve(self.encoding_spellings, spelling)
    }

    /// The compression that a name in a message stands for.
    pub open spec fn compression(self, spelling: Seq<char>) -> Option<Seq<char>> {
        resolve(self.compression_spellings, spelling)
    }

    /// Whether everything that is advertised is understood under its own name.
    pub open spec fn consistent(self) -> bool {
        &&& forall|i: int|
            0 <= i < self.supported_encodings.len() ==> self.encoding(
                #[trigger] self.supported_encodings[i],
            ) == Some(self.supported_encodings[i])
        &&& forall|i: int|
            0 <= i < self.supported_compressions.len() ==> self.compression(
                #[trigger] self.supported_compressions[i],
            ) == Some(self.supported_compressions[i])
    }
}

/// Looks a spelling up in a table.
fn lookup<'a>(table: &'a Vec<(String, String)>, spelling: &str) -> (name: Option<&'a str>)
    ensures
        name is Some <==> resolve(spellings(table@), spelling@) is Some,
        name matches Some(s) ==> Some(s@) == resolve(spellings(table@), spelling@),
{
    let mut i: usize = 0;
    let ghost all = spellings(table@);
    assert(all.skip(0) =~= all);
    while i < table.len()
        invariant
            i <= table@.len(),
            all == spellings(table@),
            resolve(all.skip(i as int), spelling@) == resolve(all, spelling@),
        decreases table@.len() - i,
    {
        proof {
            assert(all.skip(i as int)[0] == all[i as int]);
            assert(all.skip(i as int).skip(1) =~= all.skip(i + 1));
        }
        if same_text(table[i].0.as_str(), spelling) {
            return Some(table[i].1.as_str());
        }
        i += 1;
    }
    None
}

impl Codecs {
    /// The encoding that a name in a message stands for, if it is understood.
    pub fn parse_encoding(&self, spelling: &str) -> (encoding: Option<BodyEncoding>)
        ensures
            encoding is Some <==> self@.encoding(spelling@) is Some,
            encoding matches Some(e) ==> Some(e@) == self@.encoding(spelling@),
    {
        match lookup(&self.encoding_spellings, spelling) {
            Some(name) => Some(BodyEncoding::named(name)),
            None => None,
        }
    }

    /// The compression that a name in a message stands for, if it is understood.
    pub fn parse_compression(&self, spelling: &str) -> (compression: Option<Compression>)
        ensures
            compression is Some <==> self@.compression(spelling@) is Some,
            compression matches Some(c) ==> Some(c@) == self@.compression(spelling@),
    {
        match lookup(&self.compression_spellings, spelling) {
            Some(name) => Some(Compression::named(name)),
            None => None,
        }
    }

    /// Whether an encoding is implemented here.
    pub fn supports_encoding(&self, encoding: &BodyEncoding) -> (b: bool)
        ensures
            b == self@.supported_encodings.contains(encoding@),
    {
        let mut i: usize = 0;
        while i < self.supported_encodings.len()
            invariant
                i <= self.supported_encodings@.len(),
                forall|j: int|
                    0 <= j < i ==> (#[trigger] self@.supported_encodings[j]) != encoding@,
            decreases self.supported_encodings@.len() - i,
        {
            if same_text(self.supported_encodings[i].as_str(), encoding.as_str()) {
                assert(self@.supported_encodings[i as int] == encoding@);
                return true;
            }
            i += 1;
        }
        false
    }

    /// Whether a compression is implemented here.
    pub fn supports_compression(&self, compression: &Compression) -> (b: bool)
        ensures
            b == self@.supported_compressions.contains(compression@),
    {
        let mut i: usize = 0;
        while i < self.supported_compressions.len()
            invariant
                i <= self.supported_compressions@.len(),
                forall|j: int|
                    0 <= j < i ==> (#[trigger] self@.supported_compressions[j]) != compression@,
            decreases self.supported_compressions@.len() - i,
        {
            if same_text(self.supported_compressions[i].as_str(), compression.as_str()) {
                assert(self@.supported_compressions[i as int] == compression@);
                return true;
            }
            i += 1;
        }
        false
    }
}

/// The first row of a table that has a spelling.
pub open spec fn is_first_row(table: Seq<(String, String)>, spelling: Seq<char>, i: int) -> bool {
    &&& 0 <= i < table.len()
    &&& table[i].0@ == spelling
    &&& forall|j: int| 0 <= j < i ==> (#[trigger] table[j]).0@ != spelling
}

/// A spelling stands for the name in the first row that has it.
proof fn lemma_first_row(table: Seq<(String, String)>, spelling: Seq<char>)
    ensures
        resolve(spellings(table), spelling) is Some <==> exists|i: int|
            is_first_row(table, spelling, i),
        forall|i: int| #[trigger]
            is_first_row(table, spelling, i) ==> resolve(spellings(table), spelling) == Some(
                table[i].1@,
            ),
    decreases table.len(),
{
    if table.len() > 0 {
        let rest = table.skip(1);
        lemma_first_row(rest, spelling);
        assert(spellings(table).skip(1) =~= spellings(rest));
        assert(spellings(table)[0] == (table[0].0@, table[0].1@));
        if table[0].0@ == spelling {
            assert(is_first_row(table, spelling, 0));
            assert forall|i: int| #[trigger] is_first_row(table, spelling, i) implies i == 0 by {
                if i > 0 {
                    assert(table[0].0@ != spelling);
                }
            }
        } else {
            assert forall|i: int| is_first_row(rest, spelling, i) implies #[trigger] is_first_row(
                table,
                spelling,
                i + 1,
            ) by {
                assert(table[i + 1] == rest[i]);
                assert forall|j: int| 0 <= j < i + 1 implies (#[trigger] table[j]).0@
                    != spelling by {
                    if j > 0 {
                        assert(rest[j - 1] == table[j]);
                    }
                }
            }
            assert forall|i: int| #[trigger] is_first_row(table, spelling, i) implies i > 0
                && is_first_row(rest, spelling, i - 1) by {
                assert(i != 0);
                assert(rest[i - 1] == table[i]);
                assert forall|j: int| 0 <= j < i - 1 implies (#[trigger] rest[j]).0@
                    != spelling by {
                    assert(rest[j] == table[j + 1]);
                }
            }
            if exists|i: int| is_first_row(rest, spelling, i) {
                let i = choose|i: int| is_first_row(rest, spelling, i);
                assert(is_first_row(table, spelling, i + 1));
            }
            if exists|i: int| is_first_row(table, spelling, i) {
                let i = choose|i: int| is_first_row(table, spelling, i);
                assert(is_first_row(rest, spelling, i - 1));
            }
            assert forall|i: int| #[trigger] is_first_row(table, spelling, i) implies resolve(
                spellings(table),
                spelling,
            ) == Some(table[i].1@) by {
                assert(is_first_row(rest, spelling, i - 1));
                assert(rest[i - 1] == table[i]);
            }
        }
    } else {
        assert(forall|i: int| !is_first_row(table, spelling, i));
    }
}

/// A name in a message is understood exactly where the table has it, letter for
/// letter, and the first row that has it says what it stands for.
pub proof fn law_spellings_are_understood_by_table(
    codecs: &Codecs,
    spelling: &str,
    encoding: Option<BodyEncoding>,
    compression: Option<Compression>,
)
    requires
        call_ensures(Codecs::parse_encoding, (codecs, spelling), encoding),
        call_ensures(Codecs::parse_compression, (codecs, spelling), compression),
    ensures
        encoding is Some <==> exists|i: int|
            is_first_row(codecs.encoding_spellings@, spelling@, i),
        forall|i: int| #[trigger]
            is_first_row(codecs.encoding_spellings@, spelling@, i) ==> encoding is Some
                && encoding->0.name@ == codecs.encoding_spellings@[i].1@,
        compression is Some <==> exists|i: int|
            is_first_row(codecs.compression_spellings@, spelling@, i),
        forall|i: int| #[trigger]
            is_first_row(codecs.compression_spellings@, spelling@, i) ==> compression is Some
                && compression->0.name@ == codecs.compression_spellings@[i].1@,
{
    lemma_first_row(codecs.encoding_spellings@, spelling@);
    lemma_first_row(codecs.compression_spellings@, spelling@);
}

/// A codec is supported exactly where one of the same name is listed as supported.
pub proof fn law_support_is_by_name(
    codecs: &Codecs,
    encoding: &BodyEncoding,
    compression: &Compression,
    has_encoding: bool,
    has_compression: bool,
)
    requires
        call_ensures(Codecs::supports_encoding, (codecs, encoding), has_encoding),
        call_ensures(Codecs::supports_compression, (codecs, compression), has_compression),
    ensures
        has_encoding <==> exists|i: int|
            0 <= i < codecs.supported_encodings@.len() && (
            #[trigger] codecs.supported_encodings@[i]).name@ == encoding.name@,
        has_compression <==> exists|i: int|
            0 <= i < codecs.supported_compressions@.len() && (
            #[trigger] codecs.supported_compressions@[i]).name@ == compression.name@,
{
    let encodings = codecs.supported_encodings@;
    let compressions = codecs.supported_compressions@;
    if has_encoding {
        let i = encoding_names(encodings).index_of(encoding@);
        assert(encodings[i].name@ == encoding.name@);
    }
    if exists|i: int| 0 <= i < encodings.len() && (#[trigger] encodings[i]).name@ == encoding.name@ {
        let i = choose|i: int|
            0 <= i < encodings.len() && (#[trigger] encodings[i]).name@ == encoding.name@;
        assert(encoding_names(encodings)[i] == encoding@);
    }
    if has_compression {
        let i = compression_names(compressions).index_of(compression@);
        assert(compressions[i].name@ == compression.name@);
    }
    if exists|i: int|
        0 <= i < compressions.len() && (#[trigger] compressions[i]).name@ == compression.name@ {
        let i = choose|i: int|
            0 <= i < compressions.len() && (#[trigger] compressions[i]).name@ == compression.name@;
        assert(compression_names(compressions)[i] == compression@);
    }
}

/// A codec is called by the name that it was made with.
pub proof fn law_codecs_keep_their_names(
    name: &str,
    encoding: &BodyEncoding,
    compression: &Compression,
    encoding_name: &str,
    compression_name: &str,
)
    requires
        call_ensures(BodyEncoding::named, (name,), *encoding),
        call_ensures(Compression::named, (name,), *compression),
        call_ensures(BodyEncoding::as_str, (encoding,), encoding_name),
        call_ensures(Compression::as_str, (compression,), compression_name),
    ensures
        encoding_name@ == name@,
        compression_name@ == name@,
{
}

} // verus!
