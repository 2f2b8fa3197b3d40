//! Registered and private claims, and the codec between a claim set and its
//! transport text.

use crate::entries::{
    find, has_key, insert_sorted, lemma_entries_map_push, lemma_filter_restricts,
    lemma_push_distinct, overlay, text_eq,
};
use crate::error::Error;
use crate::guard::{reader_takes, within_reader_limits};
use crate::laws::{lemma_round_trip, lemma_round_trip_without_fractions};
use crate::json::{
    as_string, as_u64, ascending_keys, coarse, coarse_object, distinct_keys, document,
    entries_map, fraction_free, into_entries, json_parsed, json_written, parse, string, unsigned,
    write_object, JsonValue,
};
use crate::laws::lemma_claims_of_coarse;
use crate::transport::{
    base64_decoded, base64_encoded, base64_symbols, decode_base64, encode_base64, read_utf8,
};
use rustc_serialize::json::Json;
use vstd::prelude::*;
use vstd::utf8::{decode_utf8, encode_utf8, encode_utf8_decode_utf8, valid_utf8};

verus! {

/// The registered claims. Each is present or absent on its own; an absent
/// claim is not part of the encoded form.
#[derive(Debug, PartialEq)]
pub struct Registered {
    /// Issuer.
    pub iss: Option<String>,
    /// Subject.
    pub sub: Option<String>,
    /// Audience.
    pub aud: Option<String>,
    /// Expiration time, in seconds since the epoch.
    pub exp: Option<u64>,
    /// Not-before time.
    pub nbf: Option<u64>,
    /// Issued-at time.
    pub iat: Option<u64>,
    /// Token identifier.
    pub jti: Option<String>,
}

/// The registered claims as mathematics sees them.
pub struct RegisteredView {
    pub iss: Option<Seq<char>>,
    pub sub: Option<Seq<char>>,
    pub aud: Option<Seq<char>>,
    pub exp: Option<u64>,
    pub nbf: Option<u64>,
    pub iat: Option<u64>,
    pub jti: Option<Seq<char>>,
}

impl View for Registered {
    type V = RegisteredView;

    open spec fn view(&self) -> RegisteredView {
        RegisteredView {
            iss: self.iss.deep_view(),
            sub: self.sub.deep_view(),
            aud: self.aud.deep_view(),
            exp: self.exp,
            nbf: self.nbf,
            iat: self.iat,
            jti: self.jti.deep_view(),
        }
    }
}

/// The key is the name of a registered claim.
pub open spec fn reserved(key: Seq<char>) -> bool {
    ||| key == "iss"@
    ||| key == "sub"@
    ||| key == "aud"@
    ||| key == "exp"@
    ||| key == "nbf"@
    ||| key == "iat"@
    ||| key == "jti"@
}

/// The text claim that an object holds under a name: absent where the object
/// lacks the name, `None` where the value under it is no string.
pub open spec fn text_claim(object: Map<Seq<char>, JsonValue>, name: Seq<char>) -> Option<
    Option<Seq<char>>,
> {
    if !object.dom().contains(name) {
        Some(None)
    } else {
        match object[name] {
            JsonValue::String(text) => Some(Some(text)),
            _ => None,
        }
    }
}

/// The numeric claim that an object holds under a name: absent where the
/// object lacks the name, `None` where the value under it is no integer from
/// 0 to 2^64 - 1. A number that the document holds as a fraction is none,
/// whatever its value.
pub open spec fn number_claim(object: Map<Seq<char>, JsonValue>, name: Seq<char>) -> Option<
    Option<u64>,
> {
    if !object.dom().contains(name) {
        Some(None)
    } else {
        match object[name] {
            JsonValue::U64(n) => Some(Some(n)),
            JsonValue::I64(n) => if n >= 0 {
                Some(Some(n as u64))
            } else {
                None
            },
            _ => None,
        }
    }
}

/// The registered claims that an object holds, or `None` where one of them is
/// present with a value of the wrong type.
pub open spec fn registered_of(object: Map<Seq<char>, JsonValue>) -> Option<RegisteredView> {
    if text_claim(object, "iss"@) is Some && text_claim(object, "sub"@) is Some && text_claim(
        object,
        "aud"@,
    ) is Some && number_claim(object, "exp"@) is Some && number_claim(object, "nbf"@) is Some
        && number_claim(object, "iat"@) is Some && text_claim(object, "jti"@) is Some {
        Some(
            RegisteredView {
                iss: text_claim(object, "iss"@)->0,
                sub: text_claim(object, "sub"@)->0,
                aud: text_claim(object, "aud"@)->0,
                exp: number_claim(object, "exp"@)->0,
                nbf: number_claim(object, "nbf"@)->0,
                iat: number_claim(object, "iat"@)->0,
                jti: text_claim(object, "jti"@)->0,
            },
        )
    } else {
        None
    }
}

/// The object with a text claim written under a name, if the claim is present.
pub open spec fn with_text(
    object: Map<Seq<char>, JsonValue>,
    name: Seq<char>,
    claim: Option<Seq<char>>,
) -> Map<Seq<char>, JsonValue> {
    match claim {
        Some(text) => object.insert(name, JsonValue::String(text)),
        None => object,
    }
}

/// The object with a numeric claim written under a name, if the claim is
/// present.
pub open spec fn with_number(
    object: Map<Seq<char>, JsonValue>,
    name: Seq<char>,
    claim: Option<u64>,
) -> Map<Seq<char>, JsonValue> {
    match claim {
        Some(n) => object.insert(name, JsonValue::U64(n)),
        None => object,
    }
}

/// The object that holds exactly the registered claims that are present.
pub open spec fn registered_tree(reg: RegisteredView) -> Map<Seq<char>, JsonValue> {
    let object = with_text(Map::empty(), "iss"@, reg.iss);
    let object = with_text(object, "sub"@, reg.sub);
    let object = with_text(object, "aud"@, reg.aud);
    let object = with_number(object, "exp"@, reg.exp);
    let object = with_number(object, "nbf"@, reg.nbf);
    let object = with_number(object, "iat"@, reg.iat);
    with_text(object, "jti"@, reg.jti)
}

/// The seven reserved names differ from each other.
pub proof fn lemma_names_differ()
    ensures
        "iss"@ != "sub"@,
        "iss"@ != "aud"@,
        "iss"@ != "exp"@,
        "iss"@ != "nbf"@,
        "iss"@ != "iat"@,
        "iss"@ != "jti"@,
        "sub"@ != "aud"@,
        "sub"@ != "exp"@,
        "sub"@ != "nbf"@,
        "sub"@ != "iat"@,
        "sub"@ != "jti"@,
        "aud"@ != "exp"@,
        "aud"@ != "nbf"@,
        "aud"@ != "iat"@,
        "aud"@ != "jti"@,
        "exp"@ != "nbf"@,
        "exp"@ != "iat"@,
        "exp"@ != "jti"@,
        "nbf"@ != "iat"@,
        "nbf"@ != "jti"@,
        "iat"@ != "jti"@,
{
    reveal_strlit("iss");
    reveal_strlit("sub");
    reveal_strlit("aud");
    reveal_strlit("exp");
    reveal_strlit("nbf");
    reveal_strlit("iat");
    reveal_strlit("jti");
    assert("iss"@[0] == 'i' && "iss"@[1] == 's');
    assert("sub"@[0] == 's');
    assert("aud"@[0] == 'a');
    assert("exp"@[0] == 'e');
    assert("nbf"@[0] == 'n');
    assert("iat"@[0] == 'i' && "iat"@[1] == 'a');
    assert("jti"@[0] == 'j');
}

/// Whether the key is the name of a registered claim.
pub fn is_reserved(key: &str) -> (r: bool)
    ensures
        r == reserved(key@),
{
    text_eq(key, "iss") || text_eq(key, "sub") || text_eq(key, "aud") || text_eq(key, "exp")
        || text_eq(key, "nbf") || text_eq(key, "iat") || text_eq(key, "jti")
}

/// Reads the text claim under a name.
fn read_text(tree: &Vec<(String, Json)>, name: &str) -> (r: Result<Option<String>, Error>)
    ensures
        match r {
            Ok(claim) => text_claim(entries_map(tree@), name@) == Some(claim.deep_view()),
            Err(e) => e == Error::Decode && text_claim(entries_map(tree@), name@) is None,
        },
{
    match find(tree, name) {
        None => Ok(None),
        Some(doc) => match as_string(doc) {
            Some(text) => Ok(Some(text.to_owned())),
            None => Err(Error::Decode),
        },
    }
}

/// Reads the numeric claim under a name.
fn read_number(tree: &Vec<(String, Json)>, name: &str) -> (r: Result<Option<u64>, Error>)
    ensures
        match r {
            Ok(claim) => number_claim(entries_map(tree@), name@) == Some(claim),
            Err(e) => e == Error::Decode && number_claim(entries_map(tree@), name@) is None,
        },
{
    match find(tree, name) {
        None => Ok(None),
        Some(doc) => match as_u64(doc) {
            Some(n) => Ok(Some(n)),
            None => Err(Error::Decode),
        },
    }
}

/// Appends a text claim under a name, if the claim is present.
fn write_text(tree: &mut Vec<(String, Json)>, name: &str, claim: &Option<String>)
    requires
        distinct_keys(old(tree)@),
        !has_key(old(tree)@, name@),
    ensures
        distinct_keys(final(tree)@),
        entries_map(final(tree)@) == with_text(entries_map(old(tree)@), name@, claim.deep_view()),
        forall|key: Seq<char>|
            has_key(final(tree)@, key) ==> has_key(old(tree)@, key) || key == name@,
{
    match claim {
        Some(text) => {
            let entry = (name.to_owned(), string(text.clone()));
            proof {
                lemma_entries_map_push(tree@, entry);
                lemma_push_distinct(tree@, entry);
            }
            tree.push(entry);
        },
        None => {},
    }
}

/// Appends a numeric claim under a name, if the claim is present.
fn write_number(tree: &mut Vec<(String, Json)>, name: &str, claim: &Option<u64>)
    requires
        distinct_keys(old(tree)@),
        !has_key(old(tree)@, name@),
    ensures
        distinct_keys(final(tree)@),
        entries_map(final(tree)@) == with_number(entries_map(old(tree)@), name@, *claim),
        forall|key: Seq<char>|
            has_key(final(tree)@, key) ==> has_key(old(tree)@, key) || key == name@,
{
    match claim {
        Some(n) => {
            let entry = (name.to_owned(), unsigned(*n));
            proof {
                lemma_entries_map_push(tree@, entry);
                lemma_push_distinct(tree@, entry);
            }
            tree.push(entry);
        },
        None => {},
    }
}

impl Default for Registered {
    /// The registered claims with every claim absent.
    fn default() -> (reg: Registered)
        ensures
            reg@ == RegisteredView::absent(),
    {
        Registered { iss: None, sub: None, aud: None, exp: None, nbf: None, iat: None, jti: None }
    }
}

impl RegisteredView {
    /// The registered claims with every claim absent.
    pub open spec fn absent() -> RegisteredView {
        RegisteredView {
            iss: None,
            sub: None,
            aud: None,
            exp: None,
            nbf: None,
            iat: None,
            jti: None,
        }
    }
}

impl Registered {
    /// Reads the registered claims from the entries of an object. A claim is
    /// present where the object has its name, and absent where it has not.
    /// Entries under other names are not looked at. Fails with
    /// `Error::Decode` where a name is present with a value of the wrong
    /// type: a text claim needs a string, a numeric claim an integer from 0
    /// to 2^64 - 1.
    pub fn decode(tree: &Vec<(String, Json)>) -> (r: Result<Registered, Error>)
        ensures
            match r {
                Ok(reg) => registered_of(entries_map(tree@)) == Some(reg@),
                Err(e) => e == Error::Decode && registered_of(entries_map(tree@)) is None,
            },
    {
        let iss = read_text(tree, "iss")?;
        let sub = read_text(tree, "sub")?;
        let aud = read_text(tree, "aud")?;
        let exp = read_number(tree, "exp")?;
        let nbf = read_number(tree, "nbf")?;
        let iat = read_number(tree, "iat")?;
        let jti = read_text(tree, "jti")?;
        Ok(Registered { iss, sub, aud, exp, nbf, iat, jti })
    }

    /// Writes the registered claims as the entries of an object: one entry
    /// for each claim that is present, none for one that is absent.
    pub fn encode(&self) -> (tree: Vec<(String, Json)>)
        ensures
            distinct_keys(tree@),
            entries_map(tree@) == registered_tree(self@),
    {
        let mut tree: Vec<(String, Json)> = Vec::new();
        proof {
            lemma_names_differ();
        }
        write_text(&mut tree, "iss", &self.iss);
        write_text(&mut tree, "sub", &self.sub);
        write_text(&mut tree, "aud", &self.aud);
        write_number(&mut tree, "exp", &self.exp);
        write_number(&mut tree, "nbf", &self.nbf);
        write_number(&mut tree, "iat", &self.iat);
        write_text(&mut tree, "jti", &self.jti);
        tree
    }
}

/// The entries under reserved names.
pub open spec fn under_reserved() -> spec_fn((String, Json)) -> bool {
    |entry: (String, Json)| reserved(entry.0@)
}

/// The entries under other names.
pub open spec fn under_private() -> spec_fn((String, Json)) -> bool {
    |entry: (String, Json)| !reserved(entry.0@)
}

/// Splits the entries of an object in two: those under reserved names, and
/// the others. Each group keeps the order of the entries.
pub fn partition(entries: Vec<(String, Json)>) -> (groups: (
    Vec<(String, Json)>,
    Vec<(String, Json)>,
))
    ensures
        groups.0@ == entries@.filter(under_reserved()),
        groups.1@ == entries@.filter(under_private()),
{
    let ghost all = entries@;
    let mut registered: Vec<(String, Json)> = Vec::new();
    let mut private: Vec<(String, Json)> = Vec::new();
    proof {
        reveal(Seq::filter);
    }
    for entry in it: entries
        invariant
            it.seq() == all,
            registered@ == all.take(it.index()).filter(under_reserved()),
            private@ == all.take(it.index()).filter(under_private()),
    {
        proof {
            reveal(Seq::filter);
            assert(all.take(it.index() + 1).drop_last() =~= all.take(it.index()));
        }
        if is_reserved(entry.0.as_str()) {
            registered.push(entry);
        } else {
            private.push(entry);
        }
    }
    proof {
        assert(all.take(all.len() as int) =~= all);
    }
    (registered, private)
}

/// A claim set: the registered claims, and the private claims by name.
///
/// The private claims are the entries of a JSON object. A claim set that was
/// read, or built with `insert`, holds them in ascending order of their
/// names, each name once; `==` compares the lists. In any other list the
/// last entry with a name is the claim.
#[derive(Debug, PartialEq)]
pub struct Claims {
    pub reg: Registered,
    pub private: Vec<(String, Json)>,
}

/// A claim set as mathematics sees it.
pub struct ClaimsView {
    pub reg: RegisteredView,
    pub private: Map<Seq<char>, JsonValue>,
}

impl View for Claims {
    type V = ClaimsView;

    open spec fn view(&self) -> ClaimsView {
        ClaimsView { reg: self.reg@, private: entries_map(self.private@) }
    }
}

/// The set of the reserved names.
pub open spec fn reserved_names() -> Set<Seq<char>> {
    Set::new(|key: Seq<char>| reserved(key))
}

impl ClaimsView {
    /// No private claim has a reserved name.
    pub open spec fn wf(self) -> bool {
        forall|key: Seq<char>| reserved(key) ==> !self.private.dom().contains(key)
    }

    /// The object that stands for the claim set: the registered claims that
    /// are present, with the private claims laid over them.
    pub open spec fn tree(self) -> Map<Seq<char>, JsonValue> {
        registered_tree(self.reg).union_prefer_right(self.private)
    }
}

/// The claim set that a JSON value holds: its registered claims, and as
/// private claims what it holds under other names. Only an object holds one.
pub open spec fn claims_of(tree: JsonValue) -> Result<ClaimsView, Error> {
    match tree {
        JsonValue::Object(object) => match registered_of(object) {
            Some(reg) => Ok(ClaimsView { reg, private: object.remove_keys(reserved_names()) }),
            None => Err(Error::Decode),
        },
        _ => Err(Error::Format),
    }
}

/// The JSON value that a transport text holds, but for the bits of its
/// fractions: the text is read as base64, the bytes as UTF-8, and the
/// characters as JSON. Bytes beyond the limits of the JSON reader are no JSON
/// to the library.
pub open spec fn payload(text: Seq<char>) -> Result<JsonValue, Error> {
    match base64_decoded(text) {
        None => Err(Error::Encoding),
        Some(bytes) => if !valid_utf8(bytes) {
            Err(Error::Encoding)
        } else if !within_reader_limits(bytes) {
            Err(Error::Format)
        } else {
            match json_parsed(decode_utf8(bytes)) {
                None => Err(Error::Format),
                Some(tree) => Ok(tree),
            }
        },
    }
}

/// The claim set that a transport text holds, but for the bits of the
/// fractions in its private claims.
pub open spec fn decoded(text: Seq<char>) -> Result<ClaimsView, Error> {
    match payload(text) {
        Ok(tree) => claims_of(tree),
        Err(e) => Err(e),
    }
}

/// The transport text of a claim set: its object written as JSON, the
/// characters as UTF-8, and the bytes as base64.
pub open spec fn encoded(claims: ClaimsView) -> Seq<char> {
    base64_encoded(encode_utf8(json_written(claims.tree())))
}

/// The text that the JSON writer has for the object is within the limits of
/// the JSON reader, and the reader reads it as the object again, but for the
/// bits of fractions.
pub open spec fn survives_json(object: Map<Seq<char>, JsonValue>) -> bool {
    within_reader_limits(encode_utf8(json_written(object))) && json_parsed(json_written(object))
        == Some(coarse(JsonValue::Object(object)))
}

/// The base64 reader reads the text that the base64 writer has for the bytes
/// as the bytes again.
pub open spec fn survives_base64(bytes: Seq<u8>) -> bool {
    base64_decoded(base64_encoded(bytes)) == Some(bytes)
}

/// The outcome of a reading, with the claim set as mathematics sees it.
pub open spec fn read_view(r: Result<Claims, Error>) -> Result<ClaimsView, Error> {
    match r {
        Ok(claims) => Ok(claims@),
        Err(e) => Err(e),
    }
}

/// The claim set with the bits of every fraction in its private claims left
/// out.
pub open spec fn coarse_claims(claims: ClaimsView) -> ClaimsView {
    ClaimsView { reg: claims.reg, private: coarse_object(claims.private) }
}

/// The outcome of a reading, with the claim set as mathematics sees it but
/// for the bits of fractions.
pub open spec fn coarse_read(r: Result<Claims, Error>) -> Result<ClaimsView, Error> {
    match r {
        Ok(claims) => Ok(coarse_claims(claims@)),
        Err(e) => Err(e),
    }
}

/// The registered claims of an object depend on its reserved names alone.
pub proof fn lemma_registered_of_restrict(object: Map<Seq<char>, JsonValue>)
    ensures
        registered_of(object.restrict(reserved_names())) == registered_of(object),
{
}

impl Default for Claims {
    /// The claim set without any claim.
    fn default() -> (claims: Claims)
        ensures
            claims@ == (ClaimsView { reg: RegisteredView::absent(), private: Map::empty() }),
            claims.private@ == Seq::<(String, Json)>::empty(),
            claims.wf(),
    {
        Claims { reg: Registered::default(), private: Vec::new() }
    }
}

impl Registered {
    /// Reads the registered claims from the transport text of a claim set,
    /// and leaves its private claims aside. Fails as `Claims::from_base64`
    /// does.
    pub fn from_base64(raw: &str) -> (r: Result<Registered, Error>)
        ensures
            match r {
                Ok(reg) => decoded(raw@) matches Ok(claims) && claims.reg == reg@,
                Err(e) => decoded(raw@) matches Err(failure) && failure == e,
            },
            !base64_symbols(raw@) ==> (r matches Err(e) && e == Error::Encoding),
    {
        match Claims::from_base64(raw) {
            Ok(claims) => Ok(claims.reg),
            Err(e) => Err(e),
        }
    }

    /// Writes the registered claims as the transport text of a claim set
    /// without private claims. It does not fail.
    pub fn to_base64(&self) -> (r: Result<String, Error>)
        ensures
            r matches Ok(text) && text@ == encoded(
                ClaimsView { reg: self@, private: Map::empty() },
            ),
    {
        let tree = self.encode();
        proof {
            assert(registered_tree(self@).union_prefer_right(Map::empty()) =~= registered_tree(
                self@,
            ));
        }
        let text = match write_object(tree) {
            Ok(text) => text,
            Err(_) => { return Err(Error::Serialization); },
        };
        Ok(encode_base64(text.as_str().as_bytes()))
    }
}

impl Claims {
    /// No private claim has a reserved name, and the names stand in
    /// ascending order, so that none occurs twice.
    pub open spec fn wf(&self) -> bool {
        &&& distinct_keys(self.private@)
        &&& ascending_keys(self.private@)
        &&& self@.wf()
    }

    /// A claim set with the given registered claims and no private claim.
    pub fn new(reg: Registered) -> (claims: Claims)
        ensures
            claims.reg == reg,
            claims.private@ == Seq::<(String, Json)>::empty(),
            claims.wf(),
    {
        Claims { reg: reg, private: Vec::new() }
    }

    /// Sets a private claim as a map with ordered names does: the claim of
    /// that name is replaced, or the new claim is put where its name
    /// belongs. A reserved name is taken like any other; written, such a
    /// private claim replaces the registered claim of its name.
    pub fn insert(&mut self, name: String, value: Json)
        ensures
            final(self).reg == old(self).reg,
            ascending_keys(old(self).private@) ==> {
                &&& ascending_keys(final(self).private@)
                &&& distinct_keys(final(self).private@)
                &&& final(self)@.private == old(self)@.private.insert(name@, document(value))
            },
            old(self).wf() && !reserved(name@) ==> final(self).wf(),
    {
        insert_sorted(&mut self.private, name, value);
    }

    /// Reads a claim set from a JSON document. Its entries under reserved
    /// names become the registered claims, the others the private claims, in
    /// ascending order of their names.
    /// Fails with `Error::Format` where the document is no object, and with
    /// `Error::Decode` where a registered claim has a value of the wrong
    /// type.
    pub fn from_tree(tree: Json) -> (r: Result<Claims, Error>)
        ensures
            read_view(r) == claims_of(document(tree)),
            r matches Ok(claims) ==> claims.wf(),
    {
        let entries = match into_entries(tree) {
            Some(entries) => entries,
            None => { return Err(Error::Format); },
        };
        let ghost object = entries_map(entries@);
        proof {
            lemma_filter_restricts(entries@, under_reserved(), reserved_names());
            lemma_filter_restricts(entries@, under_private(), reserved_names().complement());
            lemma_registered_of_restrict(object);
            assert(object.restrict(reserved_names().complement()) =~= object.remove_keys(
                reserved_names(),
            ));
        }
        let (registered, private) = partition(entries);
        let reg = Registered::decode(&registered)?;
        Ok(Claims { reg, private })
    }

    /// Builds the entries of the object that stands for the claim set: the
    /// registered claims that are present, with the private claims laid over
    /// them. A private claim under a reserved name replaces the registered
    /// claim. No name occurs twice in the result.
    pub fn to_tree(&self) -> (tree: Vec<(String, Json)>)
        ensures
            distinct_keys(tree@),
            entries_map(tree@) == self@.tree(),
    {
        overlay(self.reg.encode(), &self.private)
    }

    /// Reads a claim set from its transport text. Fails with
    /// `Error::Encoding` where the text is not base64 or the bytes are not
    /// UTF-8, with `Error::Format` where the characters are not JSON, are
    /// beyond the limits of the JSON reader, or hold a value that is no
    /// object, and with `Error::Decode` where a registered claim has a value
    /// of the wrong type.
    pub fn from_base64(raw: &str) -> (r: Result<Claims, Error>)
        ensures
            coarse_read(r) == decoded(raw@),
            r matches Ok(claims) ==> claims.wf(),
            !base64_symbols(raw@) ==> (r matches Err(e) && e == Error::Encoding),
    {
        let bytes = match decode_base64(raw) {
            Ok(bytes) => bytes,
            Err(_) => { return Err(Error::Encoding); },
        };
        let text = match read_utf8(bytes) {
            Ok(text) => text,
            Err(_) => { return Err(Error::Encoding); },
        };
        proof {
            encode_utf8_decode_utf8(text@);
        }
        if !reader_takes(text.as_str().as_bytes()) {
            return Err(Error::Format);
        }
        let tree = match parse(text.as_str()) {
            Ok(tree) => tree,
            Err(_) => { return Err(Error::Format); },
        };
        proof {
            lemma_claims_of_coarse(document(tree));
        }
        Claims::from_tree(tree)
    }

    /// Writes the claim set as its transport text. It does not fail.
    ///
    /// The text reads back as the claim set, but for the bits of fractions,
    /// where no private claim has a reserved name and the JSON reader reads
    /// the written object as it was. Where the private claims hold no
    /// fraction, it reads back as the claim set itself.
    pub fn to_base64(&self) -> (r: Result<String, Error>)
        ensures
            r matches Ok(text) && text@ == encoded(self@),
            survives_base64(encode_utf8(json_written(self@.tree()))),
            self@.wf() && survives_json(self@.tree()) ==> (r matches Ok(text) && decoded(text@)
                == coarse_read(Ok(*self))),
            self@.wf() && survives_json(self@.tree()) && fraction_free(
                JsonValue::Object(self@.private),
            ) ==> (r matches Ok(text) && decoded(text@) == read_view(Ok(*self))),
    {
        let tree = self.to_tree();
        let text = match write_object(tree) {
            Ok(text) => text,
            Err(_) => { return Err(Error::Serialization); },
        };
        let out = encode_base64(text.as_str().as_bytes());
        proof {
            if self@.wf() && survives_json(self@.tree()) {
                lemma_round_trip(self@);
                if fraction_free(JsonValue::Object(self@.private)) {
                    lemma_round_trip_without_fractions(self@);
                }
            }
        }
        Ok(out)
    }
}

} // verus!
