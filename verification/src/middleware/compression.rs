//! Response compression: which coding a request accepts, and whether a
//! response may be encoded at all.
//!
//! How strongly a client weighs each coding is read from `Accept-Encoding` by
//! the server and handed here as a [`Weight`] per coding; what this module
//! decides is which coding wins and what the response then becomes. The
//! encoders themselves run in the server.

pub mod levels;
pub mod policy;
pub mod streaming;

use vstd::prelude::*;

use crate::fields::{text_value, values_of, Fields};
use crate::http::etag::{is_weak, weak_tag};
use crate::middleware::compression::levels::{BrotliLevel, GzipLevel, ZstdLevel};
use crate::middleware::compression::policy::Encoding;
use crate::middleware::compression::streaming::LatencyMode;
use crate::octets::{ascii, decimal, literal, render_u64, trim, trim_bytes, views};

verus! {

/// A content coding this build can produce.
#[derive(Clone, Copy, Debug, PartialEq, Eq, Structural)]
pub enum Coding {
    /// Zstandard.
    Zstd,
    /// Brotli.
    Brotli,
    /// gzip.
    Gzip,
}

/// The codings offered, in the server's order of preference, which breaks a
/// tie between equally weighted codings.
pub open spec fn offered() -> Seq<Coding> {
    seq![Coding::Zstd, Coding::Brotli, Coding::Gzip]
}

impl Coding {
    /// The coding's token, as octets.
    pub open spec fn spec_token(self) -> Seq<u8> {
        match self {
            Coding::Zstd => ascii("zstd"@),
            Coding::Brotli => ascii("br"@),
            Coding::Gzip => ascii("gzip"@),
        }
    }

    /// The coding's token.
    pub fn token(self) -> (r: &'static str)
        ensures
            r@ == (match self {
                Coding::Zstd => "zstd"@,
                Coding::Brotli => "br"@,
                Coding::Gzip => "gzip"@,
            }),
            r.is_ascii(),
            ascii(r@) == self.spec_token(),
    {
        proof {
            reveal_strlit("zstd");
            reveal_strlit("br");
            reveal_strlit("gzip");
        }
        match self {
            Coding::Zstd => "zstd",
            Coding::Brotli => "br",
            Coding::Gzip => "gzip",
        }
    }

    /// The codings offered, in the server's order of preference.
    pub fn all() -> (r: Vec<Coding>)
        ensures
            r@ == offered(),
    {
        let mut r: Vec<Coding> = Vec::new();
        r.push(Coding::Zstd);
        r.push(Coding::Brotli);
        r.push(Coding::Gzip);
        assert(r@ =~= offered());
        r
    }
}

/// How strongly a client weighs a coding: its qvalue as the client wrote it,
/// reduced to a key that orders as the weight does, or no key where the
/// weight is not a number and so compares with nothing.
#[derive(Clone, Copy, Debug, PartialEq, Eq, Structural)]
pub struct Weight {
    /// The ordering key; zero is a refusal.
    pub key: Option<u32>,
}

/// Whether `w` refuses: a weight of zero.
pub open spec fn refuses(w: Weight) -> bool {
    w.key == Some(0u32)
}

/// Whether `w` is above zero.
pub open spec fn positive(w: Weight) -> bool {
    w.key matches Some(k) && k > 0
}

/// Whether `a` is heavier than `b`; a weight that is not a number is neither.
pub open spec fn heavier(a: Weight, b: Weight) -> bool {
    a.key matches Some(x) && b.key matches Some(y) && x > y
}

/// Whether `a` is at most `b`; a weight that is not a number is neither.
pub open spec fn at_most(a: Weight, b: Weight) -> bool {
    a.key matches Some(x) && b.key matches Some(y) && x <= y
}

/// The heaviest coding a client accepts among the first `ws.len()` offered,
/// with its weight: the first met wins a tie, a refusal is skipped, and a
/// coding the field does not mention is not a candidate.
pub open spec fn best_of(ws: Seq<Option<Weight>>) -> Option<(int, Weight)>
    decreases ws.len(),
{
    if ws.len() == 0 {
        None
    } else {
        let before = best_of(ws.drop_last());
        match ws.last() {
            Some(w) => if refuses(w) {
                before
            } else {
                match before {
                    None => Some((ws.len() - 1, w)),
                    Some((i, b)) => if heavier(w, b) {
                        Some((ws.len() - 1, w))
                    } else {
                        before
                    },
                }
            },
            None => before,
        }
    }
}

/// What negotiation settles on.
#[derive(Clone, Copy, Debug, PartialEq, Eq, Structural)]
pub enum Negotiated {
    /// Encode with this coding.
    Encode(Coding),
    /// Send the representation as it is.
    Identity,
    /// Nothing is acceptable, identity included: the answer is a 406.
    Nothing,
}

/// What RFC 9110 section 12.5.3 resolves a request to, given whether it
/// carries a readable `Accept-Encoding`, the weight it gives each offered
/// coding (in [`offered`] order), and the weight it gives identity.
///
/// Absent, everything is acceptable. Identity wins only where it is weighed
/// more strongly than the best coding: a tie goes to the coding.
pub open spec fn negotiation(present: bool, ws: Seq<Option<Weight>>, identity: Weight) -> Negotiated {
    if !present {
        Negotiated::Identity
    } else {
        match best_of(ws) {
            None => if positive(identity) {
                Negotiated::Identity
            } else {
                Negotiated::Nothing
            },
            Some((i, w)) => if at_most(identity, w) {
                Negotiated::Encode(offered()[i])
            } else {
                Negotiated::Identity
            },
        }
    }
}

/// Settles negotiation: `present` is whether the request carries a readable
/// `Accept-Encoding`, `weights` what it weighs each offered coding (in the
/// order of [`Coding::all`], `None` where the field names neither the coding
/// nor a wildcard), and `identity` what it weighs identity.
pub fn negotiate(present: bool, weights: &[Option<Weight>], identity: Weight) -> (r: Negotiated)
    requires
        weights.len() == 3,
    ensures
        r == negotiation(present, weights@, identity),
{
    if !present {
        return Negotiated::Identity;
    }
    let codings = Coding::all();
    let mut best: Option<(usize, Weight)> = None;
    let mut i: usize = 0;
    while i < weights.len()
        invariant
            0 <= i <= weights.len(),
            weights.len() == 3,
            codings@ == offered(),
            best matches Some((j, _)) ==> j < i,
            (match best {
                Some((j, w)) => best_of(weights@.take(i as int)) == Some((j as int, w)),
                None => best_of(weights@.take(i as int)) is None,
            }),
        decreases weights.len() - i,
    {
        assert(weights@.take(i + 1).drop_last() =~= weights@.take(i as int));
        match weights[i] {
            Some(w) => {
                let skip = w.key == Some(0u32);
                if !skip {
                    let replace = match best {
                        None => true,
                        Some((_, b)) => match (w.key, b.key) {
                            (Some(x), Some(y)) => x > y,
                            _ => false,
                        },
                    };
                    if replace {
                        best = Some((i, w));
                    }
                }
            },
            None => {},
        }
        i = i + 1;
    }
    assert(weights@.take(3) =~= weights@);
    match best {
        None => {
            if identity.key.is_some() && identity.key != Some(0u32) {
                Negotiated::Identity
            } else {
                Negotiated::Nothing
            }
        },
        Some((j, w)) => {
            let le = match (identity.key, w.key) {
                (Some(x), Some(y)) => x <= y,
                _ => false,
            };
            if le {
                Negotiated::Encode(codings[j])
            } else {
                Negotiated::Identity
            }
        },
    }
}

/// Whether a response carries a strong validator: an `ETag` readable as text
/// whose trimmed value lacks the weakness marker.
pub open spec fn strong_validator(headers: Seq<(Seq<u8>, Seq<u8>)>) -> bool {
    match text_value(headers, ascii("etag"@)) {
        Some(tag) => !weak_tag(trim(tag)),
        None => false,
    }
}

/// Whether a response carries a strong validator, which one tag over a coded
/// and an uncoded representation would make a lie.
pub fn strongly_tagged(headers: &Fields) -> (r: bool)
    ensures
        r == strong_validator(headers@),
{
    proof {
        reveal_strlit("etag");
    }
    match headers.get_text(literal("etag").as_slice()) {
        Some(tag) => {
            let trimmed = trim_bytes(tag.as_slice());
            !is_weak(trimmed.as_slice())
        },
        None => false,
    }
}

/// The `Content-Encoding` group a response carries: the coding applied, and
/// the length of the coded body where it is known.
#[derive(Clone, Copy, Debug, Default)]
pub struct ContentEncoding {
    coding: Option<Coding>,
    length: Option<usize>,
}

/// The field lines of a `Content-Encoding` group.
pub open spec fn encoding_fields(coding: Option<Coding>, length: Option<usize>) -> Seq<(Seq<u8>, Seq<u8>)> {
    match coding {
        None => Seq::empty(),
        Some(c) => seq![(ascii("content-encoding"@), c.spec_token())] + match length {
            Some(n) => seq![(ascii("content-length"@), decimal(n as nat))],
            None => Seq::empty(),
        },
    }
}

impl ContentEncoding {
    /// The coding applied, if any.
    pub closed spec fn spec_coding(&self) -> Option<Coding> {
        self.coding
    }

    /// The coded length, where known.
    pub closed spec fn spec_length(&self) -> Option<usize> {
        self.length
    }

    /// The group of a response encoded with `coding`, `length` octets long
    /// once coded where that is known.
    pub fn encoded(coding: Coding, length: Option<usize>) -> (r: Self)
        ensures
            r.spec_coding() == Some(coding),
            r.spec_length() == length,
    {
        ContentEncoding { coding: Some(coding), length }
    }

    /// The group of a response sent as it is.
    pub fn identity() -> (r: Self)
        ensures
            r.spec_coding() is None,
            r.spec_length() is None,
    {
        ContentEncoding { coding: None, length: None }
    }

    /// The field names the group writes.
    pub fn names() -> (r: Vec<Vec<u8>>)
        ensures
            views(r@) == seq![ascii("content-encoding"@), ascii("content-length"@)],
    {
        proof {
            reveal_strlit("content-encoding");
            reveal_strlit("content-length");
        }
        let mut r: Vec<Vec<u8>> = Vec::new();
        r.push(literal("content-encoding"));
        r.push(literal("content-length"));
        assert(views(r@) =~= seq![ascii("content-encoding"@), ascii("content-length"@)]);
        r
    }

    /// The field names the group varies on: every response depends on
    /// `Accept-Encoding` once this interceptor is mounted.
    pub fn varies() -> (r: Vec<Vec<u8>>)
        ensures
            views(r@) == seq![ascii("accept-encoding"@)],
    {
        proof {
            reveal_strlit("accept-encoding");
        }
        let mut r: Vec<Vec<u8>> = Vec::new();
        r.push(literal("accept-encoding"));
        assert(views(r@) =~= seq![ascii("accept-encoding"@)]);
        r
    }

    /// The field lines: nothing for identity; otherwise the coding, and the
    /// coded length restated, since a length written before encoding
    /// describes a body that no longer exists (RFC 9110 section 8.6).
    pub fn encode(&self) -> (r: Vec<(Vec<u8>, Vec<u8>)>)
        ensures
            r@.map_values(|f: (Vec<u8>, Vec<u8>)| (f.0@, f.1@)) == encoding_fields(
                self.spec_coding(),
                self.spec_length(),
            ),
    {
        proof {
            reveal_strlit("content-encoding");
            reveal_strlit("content-length");
        }
        let mut r: Vec<(Vec<u8>, Vec<u8>)> = Vec::new();
        match self.coding {
            None => {
                assert(r@.map_values(|f: (Vec<u8>, Vec<u8>)| (f.0@, f.1@)) =~= Seq::empty());
            },
            Some(c) => {
                r.push((literal("content-encoding"), literal(c.token())));
                match self.length {
                    Some(n) => r.push((literal("content-length"), render_u64(n as u64))),
                    None => {},
                }
                assert(r@.map_values(|f: (Vec<u8>, Vec<u8>)| (f.0@, f.1@)) =~= encoding_fields(
                    self.coding,
                    self.length,
                ));
            },
        }
        r
    }
}

/// The refusal when no representation has an acceptable coding.
#[derive(Clone, Copy, Debug, PartialEq, Eq)]
pub struct NotAcceptable;

impl NotAcceptable {
    /// The sentence the problem document carries.
    pub fn detail(&self) -> (r: Vec<u8>)
        ensures
            r@ == ascii("no representation of this resource has an acceptable content coding"@),
    {
        proof {
            reveal_strlit("no representation of this resource has an acceptable content coding");
        }
        literal("no representation of this resource has an acceptable content coding")
    }

    /// The status it answers with.
    pub fn status(&self) -> (r: u16)
        ensures
            r == 406,
    {
        406
    }
}

/// The level each encoder runs at.
#[derive(Clone, Copy, Debug, Default, PartialEq, Eq)]
pub struct Levels {
    /// gzip's.
    pub gzip: GzipLevel,
    /// brotli's.
    pub brotli: BrotliLevel,
    /// zstd's.
    pub zstd: ZstdLevel,
}

/// Compresses responses the client accepts a coding for.
#[derive(Clone, Copy, Debug)]
pub struct Compression {
    min_size: u64,
    levels: Levels,
    latency: LatencyMode,
}

/// What becomes of one response.
#[derive(Clone, Copy, Debug, PartialEq, Eq, Structural)]
pub enum Plan {
    /// Answer 406.
    Refuse,
    /// Send it as it is.
    Leave,
    /// Read the whole body, encode it, and state the coded length.
    Buffer(Coding),
    /// Encode the body as it is produced; no length can be stated.
    Stream(Coding),
}

/// Whether a response must be sent as it is: it is already encoded, a strong
/// validator names its identity octets, or a byte range is or will be taken
/// against them.
pub open spec fn left_alone(headers: Seq<(Seq<u8>, Seq<u8>)>, status: u16) -> bool {
    ||| values_of(headers, ascii("content-encoding"@)).len() > 0
    ||| strong_validator(headers)
    ||| values_of(headers, ascii("accept-ranges"@)).len() > 0
    ||| status == 206
    ||| status == 416
    ||| values_of(headers, ascii("content-range"@)).len() > 0
}

impl Compression {
    /// The smallest body encoded, in octets.
    pub closed spec fn spec_min_size(&self) -> u64 {
        self.min_size
    }

    /// The encoders' levels.
    pub closed spec fn spec_levels(&self) -> Levels {
        self.levels
    }

    /// How a streamed body is flushed.
    pub closed spec fn spec_latency(&self) -> LatencyMode {
        self.latency
    }

    /// What becomes of a response, given what negotiation settled on, its
    /// head, the handler's word, and its length where it states one.
    pub open spec fn plan(
        &self,
        negotiated: Negotiated,
        headers: Seq<(Seq<u8>, Seq<u8>)>,
        status: u16,
        policy: Encoding,
        length: Option<u64>,
    ) -> Plan {
        let refused = policy == Encoding::Disabled || left_alone(headers, status);
        match negotiated {
            Negotiated::Encode(c) if !refused => match length {
                Some(n) => if n > 0 && n >= self.spec_min_size() {
                    Plan::Buffer(c)
                } else if policy == Encoding::Required {
                    Plan::Refuse
                } else {
                    Plan::Leave
                },
                None => Plan::Stream(c),
            },
            _ => if policy == Encoding::Required {
                Plan::Refuse
            } else {
                Plan::Leave
            },
        }
    }

    /// Every body worth encoding, at the default levels, flushing a stream
    /// frame by frame.
    pub fn new() -> (r: Self)
        ensures
            r.spec_min_size() == 0,
            r.spec_levels().gzip.spec_get() == 6,
            r.spec_levels().brotli.spec_get() == 4,
            r.spec_levels().zstd.spec_get() == 3,
            r.spec_latency() == LatencyMode::Interactive,
    {
        Compression {
            min_size: 0,
            levels: Levels {
                gzip: GzipLevel::default_level(),
                brotli: BrotliLevel::default_level(),
                zstd: ZstdLevel::default_level(),
            },
            latency: LatencyMode::Interactive,
        }
    }

    /// Leaves a body shorter than `bytes` as it is.
    pub fn min_size(self, bytes: u64) -> (r: Self)
        ensures
            r.spec_min_size() == bytes,
            r.spec_levels() == self.spec_levels(),
            r.spec_latency() == self.spec_latency(),
    {
        Compression { min_size: bytes, ..self }
    }

    /// Encodes gzip at `level`.
    pub fn gzip_level(self, level: GzipLevel) -> (r: Self)
        ensures
            r.spec_min_size() == self.spec_min_size(),
            r.spec_levels() == (Levels { gzip: level, ..self.spec_levels() }),
            r.spec_latency() == self.spec_latency(),
    {
        Compression { levels: Levels { gzip: level, ..self.levels }, ..self }
    }

    /// Encodes brotli at `level`.
    pub fn brotli_level(self, level: BrotliLevel) -> (r: Self)
        ensures
            r.spec_min_size() == self.spec_min_size(),
            r.spec_levels() == (Levels { brotli: level, ..self.spec_levels() }),
            r.spec_latency() == self.spec_latency(),
    {
        Compression { levels: Levels { brotli: level, ..self.levels }, ..self }
    }

    /// Encodes zstd at `level`.
    pub fn zstd_level(self, level: ZstdLevel) -> (r: Self)
        ensures
            r.spec_min_size() == self.spec_min_size(),
            r.spec_levels() == (Levels { zstd: level, ..self.spec_levels() }),
            r.spec_latency() == self.spec_latency(),
    {
        Compression { levels: Levels { zstd: level, ..self.levels }, ..self }
    }

    /// Encodes at `levels`.
    pub fn levels(self, levels: Levels) -> (r: Self)
        ensures
            r.spec_min_size() == self.spec_min_size(),
            r.spec_levels() == levels,
            r.spec_latency() == self.spec_latency(),
    {
        Compression { levels, ..self }
    }

    /// Flushes a streamed body as `latency` says.
    pub fn latency_mode(self, latency: LatencyMode) -> (r: Self)
        ensures
            r.spec_min_size() == self.spec_min_size(),
            r.spec_levels() == self.spec_levels(),
            r.spec_latency() == latency,
    {
        Compression { latency, ..self }
    }

    /// The encoders' levels.
    pub fn current_levels(&self) -> (r: Levels)
        ensures
            r == self.spec_levels(),
    {
        self.levels
    }

    /// How a streamed body is flushed.
    pub fn current_latency(&self) -> (r: LatencyMode)
        ensures
            r == self.spec_latency(),
    {
        self.latency
    }

    /// Whether a request is refused before the chain runs: nothing it
    /// accepts exists, so producing the representation is work whose result
    /// cannot be sent.
    pub fn refuses_early(&self, negotiated: Negotiated) -> (r: bool)
        ensures
            r == (negotiated == Negotiated::Nothing),
    {
        negotiated == Negotiated::Nothing
    }

    /// What becomes of a response the chain produced.
    pub fn decide(
        &self,
        negotiated: Negotiated,
        headers: &Fields,
        status: u16,
        policy: Encoding,
        length: Option<u64>,
    ) -> (r: Plan)
        ensures
            r == self.plan(negotiated, headers@, status, policy, length),
    {
        proof {
            reveal_strlit("content-encoding");
            reveal_strlit("accept-ranges");
            reveal_strlit("content-range");
        }
        let leave_alone = headers.contains(literal("content-encoding").as_slice()) || strongly_tagged(
            headers,
        ) || headers.contains(literal("accept-ranges").as_slice()) || status == 206 || status == 416
            || headers.contains(literal("content-range").as_slice());
        let refused = policy == Encoding::Disabled || leave_alone;
        let required = policy == Encoding::Required;
        match negotiated {
            Negotiated::Encode(c) => {
                if refused {
                    return if required {
                        Plan::Refuse
                    } else {
                        Plan::Leave
                    };
                }
                match length {
                    Some(n) => if n > 0 && n >= self.min_size {
                        Plan::Buffer(c)
                    } else if required {
                        Plan::Refuse
                    } else {
                        Plan::Leave
                    },
                    None => Plan::Stream(c),
                }
            },
            _ => if required {
                Plan::Refuse
            } else {
                Plan::Leave
            },
        }
    }
}

impl Default for Compression {
    fn default() -> (r: Self)
        ensures
            r.spec_min_size() == 0,
            r.spec_levels().gzip.spec_get() == 6,
            r.spec_levels().brotli.spec_get() == 4,
            r.spec_levels().zstd.spec_get() == 3,
            r.spec_latency() == LatencyMode::Interactive,
    {
        Compression::new()
    }
}

/// A tie between identity and the best coding goes to the coding, which is
/// what makes a plain `Accept-Encoding: gzip` mean what it is written to mean.
pub proof fn a_tie_goes_to_the_coding(ws: Seq<Option<Weight>>, identity: Weight, i: int, w: Weight)
    requires
        best_of(ws) == Some((i, w)),
        identity.key == w.key,
        w.key is Some,
    ensures
        negotiation(true, ws, identity) == Negotiated::Encode(offered()[i]),
{
}

/// Without `Accept-Encoding`, everything is acceptable and nothing is
/// refused.
pub proof fn an_absent_field_refuses_nothing(ws: Seq<Option<Weight>>, identity: Weight)
    ensures
        negotiation(false, ws, identity) == Negotiated::Identity,
{
}

/// The handler's word outranks negotiation in both directions: a disabled
/// response is sent as it is, and a required one is never sent as it is.
pub proof fn the_handlers_word_outranks_negotiation(
    c: Compression,
    negotiated: Negotiated,
    headers: Seq<(Seq<u8>, Seq<u8>)>,
    status: u16,
    length: Option<u64>,
)
    ensures
        c.plan(negotiated, headers, status, Encoding::Disabled, length) == Plan::Leave,
        c.plan(negotiated, headers, status, Encoding::Required, length) != Plan::Leave,
{
}

/// A response a range is or will be taken against is never encoded.
pub proof fn a_ranged_response_is_never_encoded(
    c: Compression,
    negotiated: Negotiated,
    headers: Seq<(Seq<u8>, Seq<u8>)>,
    status: u16,
    policy: Encoding,
    length: Option<u64>,
)
    requires
        status == 206 || status == 416 || values_of(headers, ascii("accept-ranges"@)).len() > 0
            || values_of(headers, ascii("content-range"@)).len() > 0,
    ensures
        !(c.plan(negotiated, headers, status, policy, length) is Buffer),
        !(c.plan(negotiated, headers, status, policy, length) is Stream),
{
}

/// A response that is already encoded, that names a byte range or offers
/// ranges, or that answers a range request is never encoded, whatever was
/// negotiated: encoding it again would change the octets the range or the
/// coding already describes.
pub proof fn an_encoded_or_ranged_response_is_never_encoded(
    config: Compression,
    negotiated: Negotiated,
    headers: Seq<(Seq<u8>, Seq<u8>)>,
    status: u16,
    policy: Encoding,
    length: Option<u64>,
)
    requires
        values_of(headers, ascii("content-encoding"@)).len() > 0 || values_of(
            headers,
            ascii("accept-ranges"@),
        ).len() > 0 || values_of(headers, ascii("content-range"@)).len() > 0 || status == 206 || status
            == 416,
    ensures
        !(config.plan(negotiated, headers, status, policy, length) is Buffer),
        !(config.plan(negotiated, headers, status, policy, length) is Stream),
{
}

/// A handler that disables encoding gets its response sent as it is.
pub proof fn a_disabled_response_is_never_encoded(
    config: Compression,
    negotiated: Negotiated,
    headers: Seq<(Seq<u8>, Seq<u8>)>,
    status: u16,
    length: Option<u64>,
)
    ensures
        config.plan(negotiated, headers, status, Encoding::Disabled, length) == Plan::Leave,
{
}

/// A plain response of known length, at least the configured minimum and not
/// empty, is buffered and encoded in the coding negotiated; one of unknown
/// length is streamed in it.
pub proof fn a_plain_response_is_encoded_in_the_negotiated_coding(
    config: Compression,
    coding: Coding,
    headers: Seq<(Seq<u8>, Seq<u8>)>,
    status: u16,
    policy: Encoding,
    length: Option<u64>,
)
    requires
        policy != Encoding::Disabled,
        values_of(headers, ascii("content-encoding"@)).len() == 0,
        values_of(headers, ascii("accept-ranges"@)).len() == 0,
        values_of(headers, ascii("content-range"@)).len() == 0,
        !strong_validator(headers),
        status != 206 && status != 416,
        length matches Some(n) ==> n > 0 && n >= config.spec_min_size(),
    ensures
        config.plan(Negotiated::Encode(coding), headers, status, policy, length) == match length {
            Some(_) => Plan::Buffer(coding),
            None => Plan::Stream(coding),
        },
{
}

} // verus!
