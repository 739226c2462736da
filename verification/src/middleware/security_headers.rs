//! Response fields that harden a browser's handling of an API's responses.
//!
//! `new()` sends the three that are safe for any API; content security and
//! transport security are deployment decisions, so they are sent only when
//! configured, and transport security only over a secure transport
//! (RFC 6797 section 7.2).

use vstd::prelude::*;

use crate::octets::{all_field_bytes, ascii, decimal, field_bytes, literal, render_u64, slice_to_vec, views};
use crate::time::Duration;

verus! {

/// `X-Frame-Options`: whether the response may be framed.
#[derive(Clone, Copy, Debug, PartialEq, Eq, Structural)]
pub enum FrameOptions {
    /// Never.
    Deny,
    /// Only by a page of the same origin.
    SameOrigin,
}

impl FrameOptions {
    /// The field value, as octets.
    pub open spec fn value(self) -> Seq<u8> {
        match self {
            FrameOptions::Deny => ascii("DENY"@),
            FrameOptions::SameOrigin => ascii("SAMEORIGIN"@),
        }
    }

    /// The field value.
    pub fn as_str(self) -> (r: &'static str)
        ensures
            r@ == (match self {
                FrameOptions::Deny => "DENY"@,
                FrameOptions::SameOrigin => "SAMEORIGIN"@,
            }),
            ascii(r@) == self.value(),
            r.is_ascii(),
    {
        proof {
            reveal_strlit("DENY");
            reveal_strlit("SAMEORIGIN");
        }
        match self {
            FrameOptions::Deny => "DENY",
            FrameOptions::SameOrigin => "SAMEORIGIN",
        }
    }
}

/// `Referrer-Policy`: what a browser reveals of this page when it leaves it.
#[derive(Clone, Copy, Debug, PartialEq, Eq, Structural)]
pub enum ReferrerPolicy {
    /// Nothing.
    NoReferrer,
    /// The full URL, to the same origin only.
    SameOrigin,
    /// The full URL to the same origin, the origin elsewhere, nothing on a
    /// downgrade.
    StrictOriginWhenCrossOrigin,
    /// The origin, and nothing on a downgrade.
    StrictOrigin,
}

impl ReferrerPolicy {
    /// The field value, as octets.
    pub open spec fn value(self) -> Seq<u8> {
        match self {
            ReferrerPolicy::NoReferrer => ascii("no-referrer"@),
            ReferrerPolicy::SameOrigin => ascii("same-origin"@),
            ReferrerPolicy::StrictOriginWhenCrossOrigin => ascii("strict-origin-when-cross-origin"@),
            ReferrerPolicy::StrictOrigin => ascii("strict-origin"@),
        }
    }

    /// The field value.
    pub fn as_str(self) -> (r: &'static str)
        ensures
            r@ == (match self {
                ReferrerPolicy::NoReferrer => "no-referrer"@,
                ReferrerPolicy::SameOrigin => "same-origin"@,
                ReferrerPolicy::StrictOriginWhenCrossOrigin => "strict-origin-when-cross-origin"@,
                ReferrerPolicy::StrictOrigin => "strict-origin"@,
            }),
            ascii(r@) == self.value(),
            r.is_ascii(),
    {
        proof {
            reveal_strlit("no-referrer");
            reveal_strlit("same-origin");
            reveal_strlit("strict-origin-when-cross-origin");
            reveal_strlit("strict-origin");
        }
        match self {
            ReferrerPolicy::NoReferrer => "no-referrer",
            ReferrerPolicy::SameOrigin => "same-origin",
            ReferrerPolicy::StrictOriginWhenCrossOrigin => "strict-origin-when-cross-origin",
            ReferrerPolicy::StrictOrigin => "strict-origin",
        }
    }
}

/// Transport security as configured: a lifetime and its two modifiers.
#[derive(Clone, Copy, Debug)]
struct Hsts {
    max_age: Duration,
    subdomains: bool,
    preload: bool,
}

/// The hardening fields an interceptor adds to every response.
#[derive(Clone, Debug)]
pub struct SecurityHeaders {
    frame: Option<FrameOptions>,
    referrer: Option<ReferrerPolicy>,
    permissions: Option<String>,
    csp: Option<String>,
    hsts: Option<Hsts>,
    nosniff: bool,
}

/// What a configuration says of transport security: the lifetime in
/// nanoseconds, and whether subdomains and preloading are named.
pub type HstsModel = (nat, bool, bool);

impl SecurityHeaders {
    /// The framing policy sent, if any.
    pub closed spec fn spec_frame(&self) -> Option<FrameOptions> {
        self.frame
    }

    /// The referrer policy sent, if any.
    pub closed spec fn spec_referrer(&self) -> Option<ReferrerPolicy> {
        self.referrer
    }

    /// The permissions policy, if any.
    pub closed spec fn spec_permissions(&self) -> Option<Seq<char>> {
        match self.permissions {
            Some(p) => Some(p@),
            None => None,
        }
    }

    /// The content security policy, if any.
    pub closed spec fn spec_csp(&self) -> Option<Seq<char>> {
        match self.csp {
            Some(p) => Some(p@),
            None => None,
        }
    }

    /// Transport security, if configured.
    pub closed spec fn spec_hsts(&self) -> Option<HstsModel> {
        match self.hsts {
            Some(h) => Some((h.max_age@, h.subdomains, h.preload)),
            None => None,
        }
    }

    /// Whether `X-Content-Type-Options: nosniff` is sent.
    pub closed spec fn spec_nosniff(&self) -> bool {
        self.nosniff
    }

    /// The field lines sent on a response, over a secure transport or not, in
    /// the order they are written.
    pub open spec fn sent(&self, secure: bool) -> Seq<(Seq<u8>, Seq<u8>)> {
        let nosniff = if self.spec_nosniff() {
            seq![(ascii("x-content-type-options"@), ascii("nosniff"@))]
        } else {
            Seq::empty()
        };
        let frame = match self.spec_frame() {
            Some(f) => seq![(ascii("x-frame-options"@), f.value())],
            None => Seq::empty(),
        };
        let referrer = match self.spec_referrer() {
            Some(p) => seq![(ascii("referrer-policy"@), p.value())],
            None => Seq::empty(),
        };
        let permissions = match self.spec_permissions() {
            Some(p) => if all_field_bytes(vstd::utf8::encode_utf8(p)) {
                seq![(ascii("permissions-policy"@), vstd::utf8::encode_utf8(p))]
            } else {
                Seq::empty()
            },
            None => Seq::empty(),
        };
        let csp = match self.spec_csp() {
            Some(p) => if all_field_bytes(vstd::utf8::encode_utf8(p)) {
                seq![(ascii("content-security-policy"@), vstd::utf8::encode_utf8(p))]
            } else {
                Seq::empty()
            },
            None => Seq::empty(),
        };
        let hsts = match self.spec_hsts() {
            Some(h) => if secure {
                seq![(ascii("strict-transport-security"@), hsts_value(h))]
            } else {
                Seq::empty()
            },
            None => Seq::empty(),
        };
        nosniff + frame + referrer + permissions + csp + hsts
    }

    /// `nosniff`, `DENY` and `no-referrer`: the three safe for any API.
    pub fn new() -> (r: Self)
        ensures
            r.spec_frame() == Some(FrameOptions::Deny),
            r.spec_referrer() == Some(ReferrerPolicy::NoReferrer),
            r.spec_permissions() is None,
            r.spec_csp() is None,
            r.spec_hsts() is None,
            r.spec_nosniff(),
    {
        SecurityHeaders {
            frame: Some(FrameOptions::Deny),
            referrer: Some(ReferrerPolicy::NoReferrer),
            permissions: None,
            csp: None,
            hsts: None,
            nosniff: true,
        }
    }

    /// Sends nothing until configured.
    pub fn empty() -> (r: Self)
        ensures
            r.spec_frame() is None,
            r.spec_referrer() is None,
            r.spec_permissions() is None,
            r.spec_csp() is None,
            r.spec_hsts() is None,
            !r.spec_nosniff(),
    {
        SecurityHeaders { frame: None, referrer: None, permissions: None, csp: None, hsts: None, nosniff: false }
    }

    /// Sends `X-Frame-Options: options`.
    pub fn frame_options(self, options: FrameOptions) -> (r: Self)
        ensures
            r.spec_frame() == Some(options),
            r.spec_referrer() == self.spec_referrer(),
            r.spec_permissions() == self.spec_permissions(),
            r.spec_csp() == self.spec_csp(),
            r.spec_hsts() == self.spec_hsts(),
            r.spec_nosniff() == self.spec_nosniff(),
    {
        SecurityHeaders { frame: Some(options), ..self }
    }

    /// Sends `Referrer-Policy: policy`.
    pub fn referrer_policy(self, policy: ReferrerPolicy) -> (r: Self)
        ensures
            r.spec_frame() == self.spec_frame(),
            r.spec_referrer() == Some(policy),
            r.spec_permissions() == self.spec_permissions(),
            r.spec_csp() == self.spec_csp(),
            r.spec_hsts() == self.spec_hsts(),
            r.spec_nosniff() == self.spec_nosniff(),
    {
        SecurityHeaders { referrer: Some(policy), ..self }
    }

    /// Sends `Permissions-Policy: policy`, where it can be a field value.
    pub fn permissions_policy(self, policy: &str) -> (r: Self)
        ensures
            r.spec_frame() == self.spec_frame(),
            r.spec_referrer() == self.spec_referrer(),
            r.spec_permissions() == Some(policy@),
            r.spec_csp() == self.spec_csp(),
            r.spec_hsts() == self.spec_hsts(),
            r.spec_nosniff() == self.spec_nosniff(),
    {
        SecurityHeaders { permissions: Some(policy.to_owned()), ..self }
    }

    /// Sends `Content-Security-Policy: policy`, where it can be a field value.
    pub fn content_security_policy(self, policy: &str) -> (r: Self)
        ensures
            r.spec_frame() == self.spec_frame(),
            r.spec_referrer() == self.spec_referrer(),
            r.spec_permissions() == self.spec_permissions(),
            r.spec_csp() == Some(policy@),
            r.spec_hsts() == self.spec_hsts(),
            r.spec_nosniff() == self.spec_nosniff(),
    {
        SecurityHeaders { csp: Some(policy.to_owned()), ..self }
    }

    /// Sends `Strict-Transport-Security: max-age=…` over a secure transport,
    /// with neither modifier.
    pub fn strict_transport_security(self, max_age: Duration) -> (r: Self)
        ensures
            r.spec_frame() == self.spec_frame(),
            r.spec_referrer() == self.spec_referrer(),
            r.spec_permissions() == self.spec_permissions(),
            r.spec_csp() == self.spec_csp(),
            r.spec_hsts() == Some((max_age@, false, false)),
            r.spec_nosniff() == self.spec_nosniff(),
    {
        SecurityHeaders { hsts: Some(Hsts { max_age, subdomains: false, preload: false }), ..self }
    }

    /// Adds `includeSubDomains` to transport security, where it is
    /// configured; otherwise there is nothing to modify.
    pub fn include_subdomains(self) -> (r: Self)
        ensures
            r.spec_frame() == self.spec_frame(),
            r.spec_referrer() == self.spec_referrer(),
            r.spec_permissions() == self.spec_permissions(),
            r.spec_csp() == self.spec_csp(),
            r.spec_hsts() == (match self.spec_hsts() {
                Some(h) => Some((h.0, true, h.2)),
                None => None,
            }),
            r.spec_nosniff() == self.spec_nosniff(),
    {
        let hsts = match self.hsts {
            Some(h) => Some(Hsts { subdomains: true, ..h }),
            None => None,
        };
        SecurityHeaders { hsts, ..self }
    }

    /// Adds `preload` to transport security, where it is configured;
    /// otherwise there is nothing to modify.
    pub fn preload(self) -> (r: Self)
        ensures
            r.spec_frame() == self.spec_frame(),
            r.spec_referrer() == self.spec_referrer(),
            r.spec_permissions() == self.spec_permissions(),
            r.spec_csp() == self.spec_csp(),
            r.spec_hsts() == (match self.spec_hsts() {
                Some(h) => Some((h.0, h.1, true)),
                None => None,
            }),
            r.spec_nosniff() == self.spec_nosniff(),
    {
        let hsts = match self.hsts {
            Some(h) => Some(Hsts { preload: true, ..h }),
            None => None,
        };
        SecurityHeaders { hsts, ..self }
    }

    /// The field lines to send, over a secure transport or not: each field
    /// configured, a policy only where it can be a field value, and transport
    /// security only over a secure transport.
    pub fn fields(&self, secure: bool) -> (r: Vec<(Vec<u8>, Vec<u8>)>)
        ensures
            r@.map_values(|f: (Vec<u8>, Vec<u8>)| (f.0@, f.1@)) == self.sent(secure),
    {
        proof {
            reveal_strlit("x-content-type-options");
            reveal_strlit("nosniff");
            reveal_strlit("x-frame-options");
            reveal_strlit("referrer-policy");
            reveal_strlit("permissions-policy");
            reveal_strlit("content-security-policy");
            reveal_strlit("strict-transport-security");
        }
        let mut fields: Vec<(Vec<u8>, Vec<u8>)> = Vec::new();
        if self.nosniff {
            fields.push((literal("x-content-type-options"), literal("nosniff")));
        }
        let ghost s1 = fields@.map_values(|f: (Vec<u8>, Vec<u8>)| (f.0@, f.1@));
        match self.frame {
            Some(frame) => fields.push((literal("x-frame-options"), literal(frame.as_str()))),
            None => {},
        }
        let ghost s2 = fields@.map_values(|f: (Vec<u8>, Vec<u8>)| (f.0@, f.1@));
        match self.referrer {
            Some(referrer) => fields.push((literal("referrer-policy"), literal(referrer.as_str()))),
            None => {},
        }
        let ghost s3 = fields@.map_values(|f: (Vec<u8>, Vec<u8>)| (f.0@, f.1@));
        match &self.permissions {
            Some(permissions) => {
                let bytes = permissions.as_str().as_bytes();
                if field_bytes(bytes) {
                    fields.push((literal("permissions-policy"), slice_to_vec(bytes)));
                }
            },
            None => {},
        }
        let ghost s4 = fields@.map_values(|f: (Vec<u8>, Vec<u8>)| (f.0@, f.1@));
        match &self.csp {
            Some(csp) => {
                let bytes = csp.as_str().as_bytes();
                if field_bytes(bytes) {
                    fields.push((literal("content-security-policy"), slice_to_vec(bytes)));
                }
            },
            None => {},
        }
        let ghost s5 = fields@.map_values(|f: (Vec<u8>, Vec<u8>)| (f.0@, f.1@));
        match self.hsts {
            Some(hsts) => {
                if secure {
                    fields.push((literal("strict-transport-security"), render_hsts(hsts)));
                }
            },
            None => {},
        }
        proof {
            let all = fields@.map_values(|f: (Vec<u8>, Vec<u8>)| (f.0@, f.1@));
            let nosniff = if self.spec_nosniff() {
                seq![(ascii("x-content-type-options"@), ascii("nosniff"@))]
            } else {
                Seq::empty()
            };
            assert(s1 =~= nosniff);
            let frame = match self.spec_frame() {
                Some(f) => seq![(ascii("x-frame-options"@), f.value())],
                None => Seq::empty(),
            };
            assert(s2 =~= s1 + frame);
            let referrer = match self.spec_referrer() {
                Some(p) => seq![(ascii("referrer-policy"@), p.value())],
                None => Seq::empty(),
            };
            assert(s3 =~= s2 + referrer);
            let permissions = match self.spec_permissions() {
                Some(p) => if all_field_bytes(vstd::utf8::encode_utf8(p)) {
                    seq![(ascii("permissions-policy"@), vstd::utf8::encode_utf8(p))]
                } else {
                    Seq::empty()
                },
                None => Seq::empty(),
            };
            assert(s4 =~= s3 + permissions);
            let csp = match self.spec_csp() {
                Some(p) => if all_field_bytes(vstd::utf8::encode_utf8(p)) {
                    seq![(ascii("content-security-policy"@), vstd::utf8::encode_utf8(p))]
                } else {
                    Seq::empty()
                },
                None => Seq::empty(),
            };
            assert(s5 =~= s4 + csp);
            let hsts = match self.spec_hsts() {
                Some(h) => if secure {
                    seq![(ascii("strict-transport-security"@), hsts_value(h))]
                } else {
                    Seq::empty()
                },
                None => Seq::empty(),
            };
            assert(all =~= s5 + hsts);
        }
        fields
    }
}

/// The `Strict-Transport-Security` value: `max-age=<seconds>`, then
/// `; includeSubDomains` and `; preload` where named, in that order.
pub open spec fn hsts_value(h: HstsModel) -> Seq<u8> {
    ascii("max-age="@) + decimal(h.0 / 1_000_000_000) + (if h.1 {
        ascii("; includeSubDomains"@)
    } else {
        Seq::empty()
    }) + (if h.2 {
        ascii("; preload"@)
    } else {
        Seq::empty()
    })
}

/// Renders transport security.
fn render_hsts(hsts: Hsts) -> (r: Vec<u8>)
    ensures
        r@ == hsts_value((hsts.max_age@, hsts.subdomains, hsts.preload)),
{
    proof {
        reveal_strlit("max-age=");
        reveal_strlit("; includeSubDomains");
        reveal_strlit("; preload");
    }
    let mut r = literal("max-age=");
    crate::octets::append_bytes(&mut r, render_u64(hsts.max_age.as_secs()).as_slice());
    let ghost head = r@;
    if hsts.subdomains {
        crate::octets::append_bytes(&mut r, literal("; includeSubDomains").as_slice());
    }
    let ghost middle = r@;
    if hsts.preload {
        crate::octets::append_bytes(&mut r, literal("; preload").as_slice());
    }
    proof {
        let sub = if hsts.subdomains {
            ascii("; includeSubDomains"@)
        } else {
            Seq::empty()
        };
        let pre = if hsts.preload {
            ascii("; preload"@)
        } else {
            Seq::empty()
        };
        assert(middle =~= head + sub);
        assert(r@ =~= head + sub + pre);
    }
    r
}

/// The group of hardening fields a response carries: declared, so that two
/// interceptors cannot both set one unnoticed, and deliberately not described
/// to generated clients.
#[derive(Clone, Debug, Default)]
pub struct SecurityHeaderNames(pub Vec<(Vec<u8>, Vec<u8>)>);

impl SecurityHeaderNames {
    /// Whether the group reaches generated clients' descriptions.
    pub const DESCRIBED: bool = false;

    /// The field names the group can write.
    pub open spec fn spec_names() -> Seq<Seq<u8>> {
        seq![
            ascii("content-security-policy"@),
            ascii("permissions-policy"@),
            ascii("referrer-policy"@),
            ascii("strict-transport-security"@),
            ascii("x-content-type-options"@),
            ascii("x-frame-options"@),
        ]
    }

    /// The field names the group can write.
    pub fn names() -> (r: Vec<Vec<u8>>)
        ensures
            views(r@) == Self::spec_names(),
    {
        proof {
            reveal_strlit("content-security-policy");
            reveal_strlit("permissions-policy");
            reveal_strlit("referrer-policy");
            reveal_strlit("strict-transport-security");
            reveal_strlit("x-content-type-options");
            reveal_strlit("x-frame-options");
        }
        let mut r: Vec<Vec<u8>> = Vec::new();
        r.push(literal("content-security-policy"));
        r.push(literal("permissions-policy"));
        r.push(literal("referrer-policy"));
        r.push(literal("strict-transport-security"));
        r.push(literal("x-content-type-options"));
        r.push(literal("x-frame-options"));
        assert(views(r@) =~= Self::spec_names());
        r
    }

    /// The field lines the group holds.
    pub fn encode(&self) -> (r: Vec<(Vec<u8>, Vec<u8>)>)
        ensures
            r@.map_values(|f: (Vec<u8>, Vec<u8>)| (f.0@, f.1@)) == self.0@.map_values(
                |f: (Vec<u8>, Vec<u8>)| (f.0@, f.1@),
            ),
    {
        let mut r: Vec<(Vec<u8>, Vec<u8>)> = Vec::new();
        let mut i: usize = 0;
        while i < self.0.len()
            invariant
                0 <= i <= self.0.len(),
                r@.map_values(|f: (Vec<u8>, Vec<u8>)| (f.0@, f.1@)) == self.0@.take(i as int).map_values(
                    |f: (Vec<u8>, Vec<u8>)| (f.0@, f.1@),
                ),
            decreases self.0.len() - i,
        {
            let (name, value) = &self.0[i];
            let ghost before = r@.map_values(|f: (Vec<u8>, Vec<u8>)| (f.0@, f.1@));
            r.push((slice_to_vec(name.as_slice()), slice_to_vec(value.as_slice())));
            assert(self.0@.take(i + 1) =~= self.0@.take(i as int).push(self.0@[i as int]));
            assert(r@.map_values(|f: (Vec<u8>, Vec<u8>)| (f.0@, f.1@)) =~= before.push((name@, value@)));
            i = i + 1;
            assert(r@.map_values(|f: (Vec<u8>, Vec<u8>)| (f.0@, f.1@)) =~= self.0@.take(i as int).map_values(
                |f: (Vec<u8>, Vec<u8>)| (f.0@, f.1@),
            ));
        }
        assert(self.0@.take(self.0.len() as int) =~= self.0@);
        r
    }
}

/// Transport security rides only on a secure transport (RFC 6797 section
/// 7.2): over any other, no field named `strict-transport-security` is sent.
pub proof fn transport_security_rides_only_on_a_secure_transport(headers: SecurityHeaders)
    ensures
        forall|i: int|
            0 <= i < headers.sent(false).len() ==> #[trigger] headers.sent(false)[i].0 != ascii(
                "strict-transport-security"@,
            ),
{
    reveal_strlit("strict-transport-security");
    reveal_strlit("x-content-type-options");
    reveal_strlit("x-frame-options");
    reveal_strlit("referrer-policy");
    reveal_strlit("permissions-policy");
    reveal_strlit("content-security-policy");
    let s = headers.sent(false);
    assert forall|i: int| 0 <= i < s.len() implies #[trigger] s[i].0 != ascii("strict-transport-security"@) by {
        assert(s[i].0.len() != ascii("strict-transport-security"@).len() || s[i].0[0] != 0x73u8 || s[i].0[1] != 0x74u8);
    }
}

/// Every field a configuration sends is one the group declares, so the
/// conflict check sees every name it could write.
pub proof fn every_sent_field_is_declared(headers: SecurityHeaders, secure: bool)
    ensures
        forall|i: int|
            0 <= i < headers.sent(secure).len() ==> SecurityHeaderNames::spec_names().contains(
                #[trigger] headers.sent(secure)[i].0,
            ),
{
    let s = headers.sent(secure);
    let names = SecurityHeaderNames::spec_names();
    assert(names[0] == ascii("content-security-policy"@));
    assert(names[1] == ascii("permissions-policy"@));
    assert(names[2] == ascii("referrer-policy"@));
    assert(names[3] == ascii("strict-transport-security"@));
    assert(names[4] == ascii("x-content-type-options"@));
    assert(names[5] == ascii("x-frame-options"@));
}

} // verus!
