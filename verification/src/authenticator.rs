//! Authorization by bearer tokens and by basic-auth combinations.
use vstd::prelude::*;
use vstd::utf8::encode_utf8;
use base64::Engine;
use crate::http::{string_bytes, RequestHead};
use crate::text::{bytes_equal, concat};

verus! {

/// The symbol of a 6-bit value in the standard base64 alphabet
/// (`A`-`Z`, `a`-`z`, `0`-`9`, `+`, `/`).
pub open spec fn base64_symbol(v: int) -> char {
    if v < 26 {
        ('A' as int + v) as char
    } else if v < 52 {
        ('a' as int + (v - 26)) as char
    } else if v < 62 {
        ('0' as int + (v - 52)) as char
    } else if v == 62 {
        '+'
    } else {
        '/'
    }
}

/// Standard base64 with padding (RFC 4648, section 4): each group of three
/// bytes becomes four symbols; a last group of one or two bytes is padded
/// with `=`.
pub open spec fn base64_encoding(b: Seq<u8>) -> Seq<char>
    decreases b.len(),
{
    let x = b[0] as int;
    let y = if b.len() > 1 { b[1] as int } else { 0 };
    let z = if b.len() > 2 { b[2] as int } else { 0 };
    if b.len() == 0 {
        seq![]
    } else if b.len() == 1 {
        seq![base64_symbol(x / 4), base64_symbol((x % 4) * 16), '=', '=']
    } else if b.len() == 2 {
        seq![
            base64_symbol(x / 4),
            base64_symbol((x % 4) * 16 + y / 16),
            base64_symbol((y % 16) * 4),
            '=',
        ]
    } else {
        seq![
            base64_symbol(x / 4),
            base64_symbol((x % 4) * 16 + y / 16),
            base64_symbol((y % 16) * 4 + z / 64),
            base64_symbol(z % 64),
        ] + base64_encoding(b.skip(3))
    }
}

/// Calls `base64::Engine::encode` on `base64::prelude::BASE64_STANDARD`, the
/// standard alphabet with padding. The contract claims that the result is
/// `base64_encoding` of the input bytes.
#[verifier::external_body]
fn base64_standard_encode(input: &[u8]) -> (r: String)
    ensures
        r@ == base64_encoding(input@),
{
    base64::prelude::BASE64_STANDARD.encode(input)
}

/// The header value that a bearer token is sent as.
pub open spec fn bearer_value(token: Seq<char>) -> Seq<u8> {
    encode_utf8("Bearer "@ + token)
}

/// The header value that a basic-auth combination (`user:password`) is sent as.
pub open spec fn basic_value(combo: Seq<char>) -> Seq<u8> {
    encode_utf8("Basic "@ + base64_encoding(encode_utf8(combo)))
}

/// The accepted header values for the given tokens and combinations: the
/// bearer values of the tokens, in order, then the basic values of the
/// combinations, in order.
pub open spec fn accepted_for(tokens: Seq<String>, combos: Seq<String>) -> Seq<Seq<u8>> {
    tokens.map_values(|t: String| bearer_value(t@)) + combos.map_values(
        |c: String| basic_value(c@),
    )
}

/// Accepts requests whose `Authorization` header is one of a set of values.
#[derive(Debug, Clone)]
pub struct Authenticator {
    accepted_values: Vec<Vec<u8>>,
}

impl Authenticator {
    /// The accepted header values.
    pub closed spec fn accepted(&self) -> Seq<Seq<u8>> {
        self.accepted_values@.map_values(|v: Vec<u8>| v@)
    }

    /// An authenticator that accepts the given bearer tokens and basic-auth
    /// combinations.
    pub fn new(bearer_tokens: Vec<String>, basic_auth_combos: Vec<String>) -> (r: Self)
        ensures
            r.accepted() == accepted_for(bearer_tokens@, basic_auth_combos@),
    {
        let mut accepted_values: Vec<Vec<u8>> = Vec::new();
        let ghost target = accepted_for(bearer_tokens@, basic_auth_combos@);
        let ghost nt = bearer_tokens@.len();
        let mut i: usize = 0;
        while i < bearer_tokens.len()
            invariant
                nt == bearer_tokens@.len(),
                i <= nt,
                target == accepted_for(bearer_tokens@, basic_auth_combos@),
                accepted_values@.map_values(|v: Vec<u8>| v@) == target.take(i as int),
            decreases nt - i,
        {
            let value = concat("Bearer ", bearer_tokens[i].as_str());
            let bytes = string_bytes(value.as_str());
            let ghost before = accepted_values@.map_values(|v: Vec<u8>| v@);
            accepted_values.push(bytes);
            assert(accepted_values@.map_values(|v: Vec<u8>| v@) =~= before.push(bytes@));
            assert(target[i as int] == bearer_value(bearer_tokens@[i as int]@));
            assert(target.take(i + 1) =~= target.take(i as int).push(target[i as int]));
            i = i + 1;
        }
        let ghost nc = basic_auth_combos@.len();
        let mut j: usize = 0;
        while j < basic_auth_combos.len()
            invariant
                nt == bearer_tokens@.len(),
                nc == basic_auth_combos@.len(),
                j <= nc,
                target == accepted_for(bearer_tokens@, basic_auth_combos@),
                target.len() == nt + nc,
                accepted_values@.map_values(|v: Vec<u8>| v@) == target.take(nt + j),
            decreases nc - j,
        {
            let combo_bytes = string_bytes(basic_auth_combos[j].as_str());
            let encoded = base64_standard_encode(combo_bytes.as_slice());
            let value = concat("Basic ", encoded.as_str());
            let bytes = string_bytes(value.as_str());
            let ghost before = accepted_values@.map_values(|v: Vec<u8>| v@);
            accepted_values.push(bytes);
            assert(accepted_values@.map_values(|v: Vec<u8>| v@) =~= before.push(bytes@));
            assert(target[nt + j] == basic_value(basic_auth_combos@[j as int]@));
            assert(target.take(nt + j + 1) =~= target.take(nt + j).push(target[nt + j]));
            j = j + 1;
        }
        assert(target.take((nt + nc) as int) =~= target);
        Authenticator { accepted_values }
    }

    /// Whether the request may go on: always when nothing is configured,
    /// otherwise exactly when its `Authorization` header is an accepted value.
    pub fn authenticate_request(&self, req: &RequestHead) -> (r: bool)
        ensures
            r == (self.accepted().len() == 0 || (req.authorization is Some
                && self.accepted().contains(req.authorization->Some_0@))),
    {
        if self.accepted_values.len() == 0 {
            return true;
        }
        match &req.authorization {
            None => false,
            Some(authorization) => {
                let n = self.accepted_values.len();
                let mut i: usize = 0;
                while i < n
                    invariant
                        n == self.accepted_values@.len(),
                        n == self.accepted().len(),
                        req.authorization is Some,
                        req.authorization->Some_0@ == authorization@,
                        i <= n,
                        forall|k: int| 0 <= k < i ==> self.accepted()[k] != authorization@,
                    decreases n - i,
                {
                    if bytes_equal(self.accepted_values[i].as_slice(), authorization.as_slice()) {
                        assert(self.accepted()[i as int] == authorization@);
                        assert(self.accepted().contains(authorization@));
                        return true;
                    }
                    i = i + 1;
                }
                false
            },
        }
    }
}

/// Every configured bearer token and basic-auth combination is accepted, as
/// the header value it is sent as; with nothing configured no value is
/// listed, so every request is accepted.
pub proof fn lemma_configured_credentials_accepted(tokens: Seq<String>, combos: Seq<String>)
    ensures
        forall|i: int|
            0 <= i < tokens.len() ==> accepted_for(tokens, combos).contains(
                #[trigger] bearer_value(tokens[i]@),
            ),
        forall|j: int|
            0 <= j < combos.len() ==> accepted_for(tokens, combos).contains(
                #[trigger] basic_value(combos[j]@),
            ),
        (tokens.len() == 0 && combos.len() == 0) <==> accepted_for(tokens, combos).len() == 0,
{
    let a = accepted_for(tokens, combos);
    assert forall|i: int| 0 <= i < tokens.len() implies a.contains(
        #[trigger] bearer_value(tokens[i]@),
    ) by {
        assert(a[i] == bearer_value(tokens[i]@));
    }
    assert forall|j: int| 0 <= j < combos.len() implies a.contains(
        #[trigger] basic_value(combos[j]@),
    ) by {
        assert(a[tokens.len() + j] == basic_value(combos[j]@));
    }
}

/// The accepted values are exactly the configured ones, in order:
/// `Bearer ` and each token, then `Basic ` and the base64 of each combination,
/// as UTF-8 bytes, and nothing else.
pub proof fn lemma_accepted_values_exactly(tokens: Seq<String>, combos: Seq<String>)
    ensures
        accepted_for(tokens, combos).len() == tokens.len() + combos.len(),
        forall|i: int|
            0 <= i < tokens.len() ==> #[trigger] accepted_for(tokens, combos)[i] == encode_utf8(
                "Bearer "@ + tokens[i]@,
            ),
        forall|j: int|
            0 <= j < combos.len() ==> #[trigger] accepted_for(tokens, combos)[tokens.len() + j]
                == encode_utf8("Basic "@ + base64_encoding(encode_utf8(combos[j]@))),
{
}

/// A header value is accepted exactly when it is `Bearer ` and a configured
/// token, or `Basic ` and the base64 of a configured combination.
pub proof fn lemma_accepts_exactly_configured(
    tokens: Seq<String>,
    combos: Seq<String>,
    header: Seq<u8>,
)
    ensures
        accepted_for(tokens, combos).contains(header) <==> ((exists|i: int|
            0 <= i < tokens.len() && header == encode_utf8("Bearer "@ + #[trigger] tokens[i]@))
            || (exists|j: int|
            0 <= j < combos.len() && header == encode_utf8(
                "Basic "@ + base64_encoding(encode_utf8(#[trigger] combos[j]@)),
            ))),
{
    let a = accepted_for(tokens, combos);
    lemma_accepted_values_exactly(tokens, combos);
    if a.contains(header) {
        let k = choose|k: int| 0 <= k < a.len() && a[k] == header;
        if k < tokens.len() {
            assert(header == encode_utf8("Bearer "@ + tokens[k]@));
        } else {
            assert(a[tokens.len() + (k - tokens.len())] == header);
            assert(header == encode_utf8(
                "Basic "@ + base64_encoding(encode_utf8(combos[k - tokens.len()]@)),
            ));
        }
    }
    if exists|i: int|
        0 <= i < tokens.len() && header == encode_utf8("Bearer "@ + #[trigger] tokens[i]@) {
        let i = choose|i: int|
            0 <= i < tokens.len() && header == encode_utf8("Bearer "@ + #[trigger] tokens[i]@);
        assert(a[i] == header);
    }
    if exists|j: int|
        0 <= j < combos.len() && header == encode_utf8(
            "Basic "@ + base64_encoding(encode_utf8(#[trigger] combos[j]@)),
        ) {
        let j = choose|j: int|
            0 <= j < combos.len() && header == encode_utf8(
                "Basic "@ + base64_encoding(encode_utf8(#[trigger] combos[j]@)),
            );
        assert(a[tokens.len() + j] == header);
    }
}

} // verus!
