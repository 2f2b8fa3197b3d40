//! What holds of the codec, proved over the functions that its contracts
//! speak of.

use crate::claims::{
    claims_of, coarse_claims, decoded, encoded, lemma_names_differ, number_claim, payload,
    registered_of, registered_tree, reserved, reserved_names, survives_base64, survives_json,
    text_claim, with_number, with_text, ClaimsView, RegisteredView,
};
use crate::error::Error;
use crate::json::{coarse, coarse_object, fraction_free, json_written, JsonValue};
use crate::transport::base64_decoded;
use vstd::prelude::*;
use vstd::utf8::{encode_utf8, encode_utf8_decode_utf8, encode_utf8_valid_utf8};

verus! {

/// What the object of the registered claims holds: under each reserved name
/// the claim of that name, where it is present, and nothing else.
pub proof fn lemma_registered_tree(reg: RegisteredView)
    ensures
        text_claim(registered_tree(reg), "iss"@) == Some(reg.iss),
        text_claim(registered_tree(reg), "sub"@) == Some(reg.sub),
        text_claim(registered_tree(reg), "aud"@) == Some(reg.aud),
        number_claim(registered_tree(reg), "exp"@) == Some(reg.exp),
        number_claim(registered_tree(reg), "nbf"@) == Some(reg.nbf),
        number_claim(registered_tree(reg), "iat"@) == Some(reg.iat),
        text_claim(registered_tree(reg), "jti"@) == Some(reg.jti),
        forall|key: Seq<char>| registered_tree(reg).dom().contains(key) ==> reserved(key),
{
    lemma_names_differ();
    let a = with_text(Map::empty(), "iss"@, reg.iss);
    let b = with_text(a, "sub"@, reg.sub);
    let c = with_text(b, "aud"@, reg.aud);
    let d = with_number(c, "exp"@, reg.exp);
    let e = with_number(d, "nbf"@, reg.nbf);
    let f = with_number(e, "iat"@, reg.iat);
    let g = with_text(f, "jti"@, reg.jti);
    assert(g == registered_tree(reg));
    assert(text_claim(a, "iss"@) == Some(reg.iss));
    assert(text_claim(b, "iss"@) == Some(reg.iss) && text_claim(b, "sub"@) == Some(reg.sub));
    assert(text_claim(c, "iss"@) == Some(reg.iss) && text_claim(c, "sub"@) == Some(reg.sub)
        && text_claim(c, "aud"@) == Some(reg.aud));
    assert(text_claim(d, "iss"@) == Some(reg.iss) && text_claim(d, "sub"@) == Some(reg.sub)
        && text_claim(d, "aud"@) == Some(reg.aud) && number_claim(d, "exp"@) == Some(reg.exp));
    assert(text_claim(e, "iss"@) == Some(reg.iss) && text_claim(e, "sub"@) == Some(reg.sub)
        && text_claim(e, "aud"@) == Some(reg.aud) && number_claim(e, "exp"@) == Some(reg.exp)
        && number_claim(e, "nbf"@) == Some(reg.nbf));
    assert(text_claim(f, "iss"@) == Some(reg.iss) && text_claim(f, "sub"@) == Some(reg.sub)
        && text_claim(f, "aud"@) == Some(reg.aud) && number_claim(f, "exp"@) == Some(reg.exp)
        && number_claim(f, "nbf"@) == Some(reg.nbf) && number_claim(f, "iat"@) == Some(reg.iat));
    assert forall|key: Seq<char>| g.dom().contains(key) implies reserved(key) by {
        assert(f.dom().contains(key) || key == "jti"@);
        assert(e.dom().contains(key) || key == "iat"@ || key == "jti"@);
        assert(d.dom().contains(key) || key == "nbf"@ || key == "iat"@ || key == "jti"@);
        assert(c.dom().contains(key) || key == "exp"@ || key == "nbf"@ || key == "iat"@ || key
            == "jti"@);
        assert(b.dom().contains(key) || key == "aud"@ || key == "exp"@ || key == "nbf"@ || key
            == "iat"@ || key == "jti"@);
        assert(a.dom().contains(key) || key == "sub"@ || key == "aud"@ || key == "exp"@ || key
            == "nbf"@ || key == "iat"@ || key == "jti"@);
    }
}

/// Reading the registered claims from the object that was written for them
/// gives them back.
pub proof fn lemma_registered_round_trip(reg: RegisteredView)
    ensures
        registered_of(registered_tree(reg)) == Some(reg),
{
    lemma_registered_tree(reg);
}

/// Reading the object of a claim set gives the claim set back, where no
/// private claim has a reserved name.
pub proof fn lemma_tree_round_trip(claims: ClaimsView)
    requires
        claims.wf(),
    ensures
        claims_of(JsonValue::Object(claims.tree())) matches Ok(read) && read == claims,
{
    lemma_registered_tree(claims.reg);
    let object = claims.tree();
    let registered = registered_tree(claims.reg);
    assert(reserved("iss"@) && reserved("sub"@) && reserved("aud"@) && reserved("exp"@)
        && reserved("nbf"@) && reserved("iat"@) && reserved("jti"@));
    assert(text_claim(object, "iss"@) == text_claim(registered, "iss"@));
    assert(text_claim(object, "sub"@) == text_claim(registered, "sub"@));
    assert(text_claim(object, "aud"@) == text_claim(registered, "aud"@));
    assert(number_claim(object, "exp"@) == number_claim(registered, "exp"@));
    assert(number_claim(object, "nbf"@) == number_claim(registered, "nbf"@));
    assert(number_claim(object, "iat"@) == number_claim(registered, "iat"@));
    assert(text_claim(object, "jti"@) == text_claim(registered, "jti"@));
    assert(registered_of(object) == Some(claims.reg));
    assert(object.remove_keys(reserved_names()) =~= claims.private);
}

/// Leaving out the bits of fractions changes nothing in what a value holds
/// as a claim set but those bits in the private claims.
pub proof fn lemma_claims_of_coarse(tree: JsonValue)
    ensures
        claims_of(coarse(tree)) == match claims_of(tree) {
            Ok(claims) => Ok(coarse_claims(claims)),
            Err(e) => Err(e),
        },
{
    reveal_with_fuel(coarse, 2);
    match tree {
        JsonValue::Object(object) => {
            let left = coarse_object(object);
            assert(coarse(tree) == JsonValue::Object(left));
            assert(text_claim(left, "iss"@) == text_claim(object, "iss"@));
            assert(text_claim(left, "sub"@) == text_claim(object, "sub"@));
            assert(text_claim(left, "aud"@) == text_claim(object, "aud"@));
            assert(number_claim(left, "exp"@) == number_claim(object, "exp"@));
            assert(number_claim(left, "nbf"@) == number_claim(object, "nbf"@));
            assert(number_claim(left, "iat"@) == number_claim(object, "iat"@));
            assert(text_claim(left, "jti"@) == text_claim(object, "jti"@));
            assert(left.remove_keys(reserved_names()) =~= coarse_object(
                object.remove_keys(reserved_names()),
            ));
        },
        _ => {},
    }
}

/// A value without fractions has no bits to leave out.
pub proof fn lemma_coarse_of_fraction_free(value: JsonValue)
    requires
        fraction_free(value),
    ensures
        coarse(value) == value,
    decreases value,
{
    match value {
        JsonValue::Array(items) => {
            assert forall|i: int| 0 <= i < items.len() implies coarse(items[i]) == items[i] by {
                lemma_coarse_of_fraction_free(items[i]);
            }
            assert(coarse(value)->Array_0 =~= items);
        },
        JsonValue::Object(object) => {
            assert forall|key: Seq<char>| object.dom().contains(key) implies coarse(object[key])
                == object[key] by {
                lemma_coarse_of_fraction_free(object[key]);
            }
            assert(coarse(value)->Object_0 =~= object);
        },
        _ => {},
    }
}

/// Reading the transport text of a claim set without fractions gives the
/// claim set back, where no private claim has a reserved name and both
/// writers' texts read back as what was written.
pub proof fn lemma_round_trip_without_fractions(claims: ClaimsView)
    requires
        claims.wf(),
        fraction_free(JsonValue::Object(claims.private)),
        survives_json(claims.tree()),
        survives_base64(encode_utf8(json_written(claims.tree()))),
    ensures
        decoded(encoded(claims)) matches Ok(read) && read == claims,
{
    lemma_round_trip(claims);
    lemma_coarse_of_fraction_free(JsonValue::Object(claims.private));
}

/// Reading the transport text of a claim set gives the claim set back, but
/// for the bits of fractions, where no private claim has a reserved name and
/// both writers' texts read back as what was written.
pub proof fn lemma_round_trip(claims: ClaimsView)
    requires
        claims.wf(),
        survives_json(claims.tree()),
        survives_base64(encode_utf8(json_written(claims.tree()))),
    ensures
        decoded(encoded(claims)) matches Ok(read) && read == coarse_claims(claims),
{
    let text = json_written(claims.tree());
    encode_utf8_valid_utf8(text);
    encode_utf8_decode_utf8(text);
    lemma_tree_round_trip(claims);
    lemma_claims_of_coarse(JsonValue::Object(claims.tree()));
}

/// A claim set that was read from a JSON value holds no private claim under
/// a reserved name.
pub proof fn lemma_private_names_not_reserved(tree: JsonValue)
    ensures
        claims_of(tree) matches Ok(claims) ==> claims.wf(),
{
}

/// A claim set that was read from a transport text holds no private claim
/// under a reserved name.
pub proof fn lemma_decoded_private_names_not_reserved(text: Seq<char>)
    ensures
        decoded(text) matches Ok(claims) ==> claims.wf(),
{
    match payload(text) {
        Ok(tree) => lemma_private_names_not_reserved(tree),
        Err(_) => {},
    }
}

/// The object of a claim set holds a reserved name exactly where the claim
/// of that name is present: an absent claim is not written.
pub proof fn lemma_absent_claim_not_written(claims: ClaimsView)
    requires
        claims.wf(),
    ensures
        claims.tree().dom().contains("iss"@) <==> claims.reg.iss is Some,
        claims.tree().dom().contains("sub"@) <==> claims.reg.sub is Some,
        claims.tree().dom().contains("aud"@) <==> claims.reg.aud is Some,
        claims.tree().dom().contains("exp"@) <==> claims.reg.exp is Some,
        claims.tree().dom().contains("nbf"@) <==> claims.reg.nbf is Some,
        claims.tree().dom().contains("iat"@) <==> claims.reg.iat is Some,
        claims.tree().dom().contains("jti"@) <==> claims.reg.jti is Some,
{
    lemma_registered_tree(claims.reg);
    assert(reserved("iss"@) && reserved("sub"@) && reserved("aud"@) && reserved("exp"@)
        && reserved("nbf"@) && reserved("iat"@) && reserved("jti"@));
}

/// The registered claims that were read from an object hold a claim exactly
/// where the object has its name: a missing name reads as an absent claim.
pub proof fn lemma_missing_name_reads_absent(object: Map<Seq<char>, JsonValue>)
    ensures
        registered_of(object) matches Some(reg) ==> {
            &&& reg.iss is Some <==> object.dom().contains("iss"@)
            &&& reg.sub is Some <==> object.dom().contains("sub"@)
            &&& reg.aud is Some <==> object.dom().contains("aud"@)
            &&& reg.exp is Some <==> object.dom().contains("exp"@)
            &&& reg.nbf is Some <==> object.dom().contains("nbf"@)
            &&& reg.iat is Some <==> object.dom().contains("iat"@)
            &&& reg.jti is Some <==> object.dom().contains("jti"@)
        },
{
}

/// The registered claims that were read from a transport text hold a claim
/// exactly where the object of the text has its name.
pub proof fn lemma_decoded_missing_name_reads_absent(
    text: Seq<char>,
    object: Map<Seq<char>, JsonValue>,
)
    requires
        payload(text) matches Ok(tree) && tree == JsonValue::Object(object),
    ensures
        decoded(text) matches Ok(claims) ==> {
            &&& claims.reg.iss is Some <==> object.dom().contains("iss"@)
            &&& claims.reg.sub is Some <==> object.dom().contains("sub"@)
            &&& claims.reg.aud is Some <==> object.dom().contains("aud"@)
            &&& claims.reg.exp is Some <==> object.dom().contains("exp"@)
            &&& claims.reg.nbf is Some <==> object.dom().contains("nbf"@)
            &&& claims.reg.iat is Some <==> object.dom().contains("iat"@)
            &&& claims.reg.jti is Some <==> object.dom().contains("jti"@)
        },
{
    lemma_missing_name_reads_absent(object);
}

/// The name is that of a text claim.
pub open spec fn text_name(name: Seq<char>) -> bool {
    name == "iss"@ || name == "sub"@ || name == "aud"@ || name == "jti"@
}

/// The name is that of a numeric claim.
pub open spec fn number_name(name: Seq<char>) -> bool {
    name == "exp"@ || name == "nbf"@ || name == "iat"@
}

/// A text whose object holds a value of the wrong type under a reserved name
/// is rejected with `Error::Decode`: under the name of a text claim anything
/// but a string, under the name of a numeric claim anything but an integer
/// from 0 to 2^64 - 1.
pub proof fn lemma_wrong_type_rejected(
    text: Seq<char>,
    object: Map<Seq<char>, JsonValue>,
    name: Seq<char>,
)
    requires
        payload(text) matches Ok(tree) && tree == JsonValue::Object(object),
        object.dom().contains(name),
        (text_name(name) && !(object[name] is String)) || (number_name(name) && !(object[name]
            is U64) && !(object[name] matches JsonValue::I64(n) && n >= 0)),
    ensures
        decoded(text) matches Err(e) && e == Error::Decode,
{
}

/// A text whose object holds a string under the name of a numeric claim is
/// rejected with `Error::Decode`.
pub proof fn lemma_string_for_number_rejected(
    text: Seq<char>,
    object: Map<Seq<char>, JsonValue>,
    name: Seq<char>,
)
    requires
        payload(text) matches Ok(tree) && tree == JsonValue::Object(object),
        name == "exp"@ || name == "nbf"@ || name == "iat"@,
        object.dom().contains(name),
        object[name] is String,
    ensures
        decoded(text) matches Err(e) && e == Error::Decode,
{
}

/// A text whose JSON value is no object is rejected with `Error::Format`.
pub proof fn lemma_not_an_object_rejected(text: Seq<char>)
    requires
        payload(text) matches Ok(tree) && !(tree is Object),
    ensures
        decoded(text) matches Err(e) && e == Error::Format,
{
}

/// A text that is not base64 is rejected with `Error::Encoding`.
pub proof fn lemma_not_base64_rejected(text: Seq<char>)
    requires
        base64_decoded(text) is None,
    ensures
        decoded(text) matches Err(e) && e == Error::Encoding,
{
}

} // verus!
