//! Request decompression: which codings a request body declares, and how far
//! a decoded body may grow.
//!
//! Every decision is taken before a byte is decoded: an unknown coding refuses
//! the whole body, a long chain is refused rather than paid for, and the
//! decoded size is bounded both absolutely and relative to what arrived. The
//! decoders themselves run in the server.

use vstd::prelude::*;

use crate::fields::{values_of, Fields};
use crate::octets::{
    all_visible, ascii, eq_ignore_ascii_case, eq_ignore_case, literal, render_u64, split,
    split_bytes, trim, trim_bytes, views, visible, decimal,
};
use crate::time::min_nat;

verus! {

/// A content coding this server decodes.
#[derive(Clone, Copy, Debug, PartialEq, Eq, Structural)]
pub enum Coding {
    /// Zstandard.
    Zstd,
    /// Brotli.
    Brotli,
    /// gzip, also spelled `x-gzip`.
    Gzip,
}

/// The coding a token names, compared without regard to case.
pub open spec fn coding_named(token: Seq<u8>) -> Option<Coding> {
    if eq_ignore_case(token, ascii("zstd"@)) {
        Some(Coding::Zstd)
    } else if eq_ignore_case(token, ascii("br"@)) {
        Some(Coding::Brotli)
    } else if eq_ignore_case(token, ascii("gzip"@)) || eq_ignore_case(token, ascii("x-gzip"@)) {
        Some(Coding::Gzip)
    } else {
        None
    }
}

impl Coding {
    /// The coding a token names, or `None` for one this server does not
    /// decode (RFC 9110 section 8.4.1 makes the comparison case-insensitive).
    pub fn from_token(token: &str) -> (r: Option<Coding>)
        ensures
            r == coding_named(vstd::utf8::encode_utf8(token@)),
    {
        Self::from_bytes(token.as_bytes())
    }

    /// The coding a token, as octets, names.
    pub fn from_bytes(token: &[u8]) -> (r: Option<Coding>)
        ensures
            r == coding_named(token@),
    {
        proof {
            reveal_strlit("zstd");
            reveal_strlit("br");
            reveal_strlit("gzip");
            reveal_strlit("x-gzip");
        }
        if eq_ignore_ascii_case(token, literal("zstd").as_slice()) {
            Some(Coding::Zstd)
        } else if eq_ignore_ascii_case(token, literal("br").as_slice()) {
            Some(Coding::Brotli)
        } else if eq_ignore_ascii_case(token, literal("gzip").as_slice()) || eq_ignore_ascii_case(
            token,
            literal("x-gzip").as_slice(),
        ) {
            Some(Coding::Gzip)
        } else {
            None
        }
    }
}

/// The longest chain of codings a body may declare: each link costs a decode
/// pass over a body already at the cap.
pub const MAX_CODINGS: usize = 4;

/// The codings this server decodes, as a 415 advertises them.
pub open spec fn accepted() -> Seq<u8> {
    ascii("zstd, br, gzip"@)
}

/// The chain after one more token of a `Content-Encoding` list: empty tokens
/// and `identity` are dropped, an unknown coding or a chain grown past the
/// cap refuses the whole body.
pub open spec fn with_token(chain: Option<Seq<Coding>>, token: Seq<u8>) -> Option<Seq<Coding>> {
    match chain {
        None => None,
        Some(cs) => {
            let t = trim(token);
            if t.len() == 0 || eq_ignore_case(t, ascii("identity"@)) {
                Some(cs)
            } else {
                match coding_named(t) {
                    None => None,
                    Some(c) => if cs.len() + 1 > MAX_CODINGS {
                        None
                    } else {
                        Some(cs.push(c))
                    },
                }
            }
        },
    }
}

/// The chain after the tokens of one field line, in order.
pub open spec fn with_tokens(chain: Option<Seq<Coding>>, tokens: Seq<Seq<u8>>) -> Option<Seq<Coding>>
    decreases tokens.len(),
{
    if tokens.len() == 0 {
        chain
    } else {
        with_token(with_tokens(chain, tokens.drop_last()), tokens.last())
    }
}

/// The chain declared by the `Content-Encoding` field lines `values`, in the
/// order the codings were applied; `None` where a line is not text or the
/// chain cannot be decoded.
pub open spec fn chain_of(values: Seq<Seq<u8>>) -> Option<Seq<Coding>>
    decreases values.len(),
{
    if values.len() == 0 {
        Some(Seq::empty())
    } else {
        let before = chain_of(values.drop_last());
        if before is None || !all_visible(values.last()) {
            None
        } else {
            with_tokens(before, split(values.last(), 0x2cu8))
        }
    }
}

/// A refused chain stays refused, whatever tokens follow.
proof fn lemma_tokens_refused(tokens: Seq<Seq<u8>>)
    ensures
        with_tokens(None, tokens) is None,
    decreases tokens.len(),
{
    if tokens.len() > 0 {
        lemma_tokens_refused(tokens.drop_last());
    }
}

/// A chain refused by a prefix of a line's tokens is refused by the line.
proof fn lemma_tokens_prefix_refused(chain: Option<Seq<Coding>>, tokens: Seq<Seq<u8>>, j: int)
    requires
        0 <= j <= tokens.len(),
        with_tokens(chain, tokens.take(j)) is None,
    ensures
        with_tokens(chain, tokens) is None,
    decreases tokens.len() - j,
{
    if j < tokens.len() {
        assert(tokens.take(j + 1).drop_last() =~= tokens.take(j));
        lemma_tokens_prefix_refused(chain, tokens, j + 1);
    } else {
        assert(tokens.take(j) =~= tokens);
    }
}

/// A chain refused by a prefix of the field lines is refused by all of them.
proof fn lemma_chain_prefix_refused(values: Seq<Seq<u8>>, i: int)
    requires
        0 <= i <= values.len(),
        chain_of(values.take(i)) is None,
    ensures
        chain_of(values) is None,
    decreases values.len() - i,
{
    if i < values.len() {
        assert(values.take(i + 1).drop_last() =~= values.take(i));
        lemma_chain_prefix_refused(values, i + 1);
    } else {
        assert(values.take(i) =~= values);
    }
}

/// The codings a request body declares, in the order they were applied, or
/// `None` where it cannot be decoded.
pub fn declared(headers: &Fields) -> (r: Option<Vec<Coding>>)
    ensures
        match r {
            Some(v) => chain_of(values_of(headers@, ascii("content-encoding"@))) == Some(v@),
            None => chain_of(values_of(headers@, ascii("content-encoding"@))) is None,
        },
{
    proof {
        reveal_strlit("content-encoding");
        reveal_strlit("identity");
    }
    let values = headers.get_all(literal("content-encoding").as_slice());
    let ghost vs = views(values@);
    let identity = literal("identity");
    let mut codings: Vec<Coding> = Vec::new();
    let mut i: usize = 0;
    while i < values.len()
        invariant
            0 <= i <= values.len(),
            vs == views(values@),
            vs == values_of(headers@, ascii("content-encoding"@)),
            identity@ == ascii("identity"@),
            chain_of(vs.take(i as int)) == Some(codings@),
            codings.len() <= MAX_CODINGS,
        decreases values.len() - i,
    {
        assert(vs.take(i + 1).drop_last() =~= vs.take(i as int));
        assert(vs.take(i + 1).last() == values@[i as int]@);
        if !visible(values[i].as_slice()) {
            proof {
                assert(!all_visible(vs.take(i + 1).last()));
                assert(chain_of(vs.take(i + 1)) is None);
                lemma_chain_prefix_refused(vs, i + 1);
            }
            return None;
        }
        let tokens = split_bytes(values[i].as_slice(), 0x2c);
        let ghost ts = views(tokens@);
        let mut j: usize = 0;
        while j < tokens.len()
            invariant
                0 <= j <= tokens.len(),
                ts == views(tokens@),
                i < values.len(),
                vs == views(values@),
                vs == values_of(headers@, ascii("content-encoding"@)),
                identity@ == ascii("identity"@),
                with_tokens(chain_of(vs.take(i as int)), ts.take(j as int)) == Some(codings@),
                codings.len() <= MAX_CODINGS,
                chain_of(vs.take(i + 1)) == with_tokens(chain_of(vs.take(i as int)), ts),
            decreases tokens.len() - j,
        {
            assert(ts.take(j + 1).drop_last() =~= ts.take(j as int));
            assert(ts.take(j + 1).last() == tokens@[j as int]@);
            let t = trim_bytes(tokens[j].as_slice());
            if t.len() == 0 || eq_ignore_ascii_case(t.as_slice(), identity.as_slice()) {
            } else {
                match Coding::from_bytes(t.as_slice()) {
                    None => {
                        proof {
                            lemma_tokens_prefix_refused(chain_of(vs.take(i as int)), ts, j + 1);
                            lemma_chain_prefix_refused(vs, i + 1);
                        }
                        return None;
                    },
                    Some(c) => {
                        if codings.len() + 1 > MAX_CODINGS {
                            proof {
                                lemma_tokens_prefix_refused(chain_of(vs.take(i as int)), ts, j + 1);
                                lemma_chain_prefix_refused(vs, i + 1);
                            }
                            return None;
                        }
                        codings.push(c);
                    },
                }
            }
            j = j + 1;
        }
        assert(ts.take(tokens.len() as int) =~= ts);
        i = i + 1;
    }
    assert(vs.take(values.len() as int) =~= vs);
    Some(codings)
}

/// Why a request body could not be decoded.
#[derive(Clone, Copy, Debug, PartialEq, Eq, Structural)]
pub enum Undecodable {
    /// It declares a coding this server does not decode, or too long a chain.
    UnsupportedCoding,
    /// It did not decode as the coding it declared.
    Malformed,
    /// It exceeds `limit` octets, as it arrived or once decoded.
    TooLarge {
        /// The bound it exceeded.
        limit: u64,
    },
}

impl Undecodable {
    /// The sentence the problem document carries: a 415 names the codings
    /// that are decoded, and a 413 the bound the decoded body passed.
    pub fn detail(&self) -> (r: Vec<u8>)
        ensures
            r@ == (match self {
                Undecodable::UnsupportedCoding => ascii(
                    "the request body's content coding is not one this server decodes; it accepts "@,
                ) + accepted(),
                Undecodable::Malformed => ascii("the request body did not decode as the coding it declared"@),
                Undecodable::TooLarge { limit } => ascii("the request body exceeds "@) + decimal(*limit as nat)
                    + ascii(" bytes once decoded"@),
            }),
    {
        proof {
            reveal_strlit("the request body's content coding is not one this server decodes; it accepts ");
            reveal_strlit("zstd, br, gzip");
            reveal_strlit("the request body did not decode as the coding it declared");
            reveal_strlit("the request body exceeds ");
            reveal_strlit(" bytes once decoded");
        }
        match self {
            Undecodable::UnsupportedCoding => {
                let mut r = literal("the request body's content coding is not one this server decodes; it accepts ");
                let ghost head = r@;
                let tail = literal("zstd, br, gzip");
                r.extend_from_slice(tail.as_slice());
                assert(r@ =~= head + accepted());
                r
            },
            Undecodable::Malformed => literal("the request body did not decode as the coding it declared"),
            Undecodable::TooLarge { limit } => {
                let mut r = literal("the request body exceeds ");
                let ghost head = r@;
                let digits = crate::octets::render_u64(*limit);
                let tail = literal(" bytes once decoded");
                r.extend_from_slice(digits.as_slice());
                r.extend_from_slice(tail.as_slice());
                assert(r@ =~= head + digits@ + tail@);
                r
            },
        }
    }

    /// The status each refusal answers with.
    pub fn status(&self) -> (r: u16)
        ensures
            r == (match self {
                Undecodable::UnsupportedCoding => 415u16,
                Undecodable::Malformed => 400u16,
                Undecodable::TooLarge { .. } => 413u16,
            }),
    {
        match self {
            Undecodable::UnsupportedCoding => 415,
            Undecodable::Malformed => 400,
            Undecodable::TooLarge { .. } => 413,
        }
    }

    /// The statuses a refusal may answer with.
    pub fn statuses() -> (r: Vec<u16>)
        ensures
            r@ == seq![400u16, 413u16, 415u16],
    {
        let mut r: Vec<u16> = Vec::new();
        r.push(400);
        r.push(413);
        r.push(415);
        assert(r@ =~= seq![400u16, 413u16, 415u16]);
        r
    }

    /// The field lines the refusal carries: a 415 names the codings that are
    /// decoded, so a client can retry with one.
    pub fn fields(&self) -> (r: Vec<(Vec<u8>, Vec<u8>)>)
        ensures
            r@.map_values(|f: (Vec<u8>, Vec<u8>)| (f.0@, f.1@)) == (match self {
                Undecodable::UnsupportedCoding => seq![(ascii("accept-encoding"@), accepted())],
                _ => Seq::empty(),
            }),
    {
        proof {
            reveal_strlit("accept-encoding");
            reveal_strlit("zstd, br, gzip");
        }
        let mut r: Vec<(Vec<u8>, Vec<u8>)> = Vec::new();
        match self {
            Undecodable::UnsupportedCoding => {
                r.push((literal("accept-encoding"), literal("zstd, br, gzip")));
            },
            _ => {},
        }
        assert(r@.map_values(|f: (Vec<u8>, Vec<u8>)| (f.0@, f.1@)) =~= (match self {
            Undecodable::UnsupportedCoding => seq![(ascii("accept-encoding"@), accepted())],
            _ => Seq::empty(),
        }));
        r
    }
}

/// Whether `arriving` more octets on top of `so_far` exceed `limit`, counted
/// saturating.
pub fn exceeds(so_far: u64, arriving: u64, limit: u64) -> (r: bool)
    ensures
        r == (min_nat((so_far + arriving) as nat, u64::MAX as nat) > limit),
{
    so_far.saturating_add(arriving) > limit
}

/// Decodes request bodies, within a size bound.
#[derive(Clone, Copy, Debug)]
pub struct Decompression {
    limit: u64,
    max_ratio: Option<u64>,
}

impl Decompression {
    /// The absolute bound on a body, as it arrives and once decoded.
    pub closed spec fn spec_limit(&self) -> u64 {
        self.limit
    }

    /// The bound on how many times larger a decoded body may be than what
    /// was decoded, if any.
    pub closed spec fn spec_max_ratio(&self) -> Option<u64> {
        self.max_ratio
    }

    /// Decodes bodies of at most `bytes` octets, with no ratio bound.
    pub fn new(bytes: u64) -> (r: Self)
        ensures
            r.spec_limit() == bytes,
            r.spec_max_ratio() is None,
    {
        Decompression { limit: bytes, max_ratio: None }
    }

    /// Bounds a decoded body to `times` the size of what was decoded too.
    pub fn max_ratio(self, times: u64) -> (r: Self)
        ensures
            r.spec_limit() == self.spec_limit(),
            r.spec_max_ratio() == Some(times),
    {
        Decompression { max_ratio: Some(times), ..self }
    }

    /// The absolute bound.
    pub fn limit(&self) -> (r: u64)
        ensures
            r == self.spec_limit(),
    {
        self.limit
    }

    /// The bound on decoding `encoded` octets: the absolute limit, or the
    /// ratio bound where one is set and tighter; a ratio bound that would
    /// overflow saturates, so the absolute limit binds.
    pub fn bound(self, encoded: u64) -> (r: u64)
        ensures
            r == (match self.spec_max_ratio() {
                Some(ratio) => min_nat(
                    self.spec_limit() as nat,
                    min_nat((encoded * ratio) as nat, u64::MAX as nat),
                ),
                None => self.spec_limit() as nat,
            }),
    {
        match self.max_ratio {
            Some(ratio) => {
                let product = match encoded.checked_mul(ratio) {
                    Some(p) => p,
                    None => u64::MAX,
                };
                if product < self.limit {
                    product
                } else {
                    self.limit
                }
            },
            None => self.limit,
        }
    }

    /// The head of a request once its body was decoded to `length` octets:
    /// where a coding was declared, the coding and every digest of the coded
    /// octets are gone and the length is restated.
    pub fn decoded_head(&self, headers: &mut Fields, declared: &[Coding], length: u64)
        ensures
            declared.len() == 0 ==> final(headers)@ == old(headers)@,
            declared.len() > 0 ==> final(headers)@ == crate::fields::without(
                crate::fields::without(
                    crate::fields::without(
                        crate::fields::without(
                            crate::fields::without(old(headers)@, ascii("content-encoding"@)),
                            ascii("content-digest"@),
                        ),
                        ascii("digest"@),
                    ),
                    ascii("content-md5"@),
                ),
                ascii("content-length"@),
            ).push((ascii("content-length"@), decimal(length as nat))),
    {
        if declared.len() == 0 {
            return;
        }
        proof {
            reveal_strlit("content-encoding");
            reveal_strlit("content-digest");
            reveal_strlit("digest");
            reveal_strlit("content-md5");
            reveal_strlit("content-length");
        }
        headers.remove(literal("content-encoding").as_slice());
        headers.remove(literal("content-digest").as_slice());
        headers.remove(literal("digest").as_slice());
        headers.remove(literal("content-md5").as_slice());
        let name = literal("content-length");
        proof {
            assert(crate::octets::lower(name@) =~= name@) by {
                assert forall|k: int| 0 <= k < name@.len() implies crate::octets::lower_byte(name@[k])
                    == name@[k] by {}
            }
        }
        headers.insert(name.as_slice(), render_u64(length).as_slice());
    }
}

/// A declared chain never exceeds the cap on its length.
pub proof fn a_declared_chain_is_never_longer_than_the_cap(values: Seq<Seq<u8>>)
    ensures
        chain_of(values) matches Some(c) ==> c.len() <= MAX_CODINGS,
    decreases values.len(),
{
    if values.len() > 0 {
        a_declared_chain_is_never_longer_than_the_cap(values.drop_last());
        if chain_of(values.drop_last()) is Some && all_visible(values.last()) {
            lemma_tokens_bounded(chain_of(values.drop_last()), split(values.last(), 0x2cu8));
        }
    }
}

/// Tokens never grow a chain past the cap.
proof fn lemma_tokens_bounded(chain: Option<Seq<Coding>>, tokens: Seq<Seq<u8>>)
    requires
        chain matches Some(c) ==> c.len() <= MAX_CODINGS,
    ensures
        with_tokens(chain, tokens) matches Some(c) ==> c.len() <= MAX_CODINGS,
    decreases tokens.len(),
{
    if tokens.len() > 0 {
        lemma_tokens_bounded(chain, tokens.drop_last());
    }
}

/// The bound on a decoded body never exceeds the absolute limit, whatever the
/// ratio: the ratio only ever tightens it.
pub proof fn the_ratio_only_tightens_the_bound(limit: nat, ratio: Option<nat>, encoded: nat)
    ensures
        (match ratio {
            Some(r) => min_nat(limit, min_nat(encoded * r, u64::MAX as nat)),
            None => limit,
        }) <= limit,
{
}

} // verus!
