//! Who sent a request through a chain of proxies, believing only the proxies
//! the application names.
//!
//! RFC 7239's `Forwarded`, or the de facto `X-Forwarded-For` and
//! `X-Forwarded-Proto` where no `Forwarded` arrived. Reading an address out of
//! a node's text is the server's (the text is an IP literal); which node is
//! read, and how far a chain is believed, is decided here.

use vstd::prelude::*;

use crate::fields::{first_value, values_of, Fields};
use crate::octets::{
    all_visible, ascii, bytes_eq, eq_ignore_ascii_case, eq_ignore_case, first_index, find_byte,
    literal, lower, opt_bytes, slice_to_vec, split, split_bytes, split_once, split_once_bytes, to_lower, trim,
    trim_bytes, views, visible,
};

verus! {

/// An IP address, by its octets.
#[derive(Clone, Copy, Debug, PartialEq, Eq, Hash)]
pub enum IpAddr {
    /// An IPv4 address.
    V4([u8; 4]),
    /// An IPv6 address.
    V6([u8; 16]),
}

/// The octets of an address, and whether it is IPv6.
pub open spec fn ip_view(a: IpAddr) -> (bool, Seq<u8>) {
    match a {
        IpAddr::V4(o) => (false, o@),
        IpAddr::V6(o) => (true, o@),
    }
}

/// Whether two addresses are the same address.
pub fn same_address(a: &IpAddr, b: &IpAddr) -> (r: bool)
    ensures
        r == (ip_view(*a) == ip_view(*b)),
{
    match (a, b) {
        (IpAddr::V4(x), IpAddr::V4(y)) => {
            let r = crate::octets::bytes_eq(x, y);
            assert(x@ == x.view() && y@ == y.view());
            r
        },
        (IpAddr::V6(x), IpAddr::V6(y)) => crate::octets::bytes_eq(x, y),
        _ => false,
    }
}

/// Whether the first `prefix` bits of `address` and `network` agree: the
/// whole octets they cover are equal, and so are the high bits of the octet
/// the prefix ends in. A prefix longer than the address matches nothing.
pub open spec fn prefix_agrees(address: Seq<u8>, network: Seq<u8>, prefix: nat) -> bool {
    let whole = prefix / 8;
    let bits = prefix % 8;
    &&& prefix <= address.len() * 8
    &&& address.len() == network.len()
    &&& address.take(whole as int) == network.take(whole as int)
    &&& (bits == 0 || (address[whole as int] >> ((8 - bits) as u8)) == (network[whole as int] >> ((8 - bits) as u8)))
}

/// Whether `address` is in the network `network/prefix`; never across
/// address families.
pub open spec fn in_network(address: IpAddr, network: IpAddr, prefix: u8) -> bool {
    ip_view(address).0 == ip_view(network).0 && prefix_agrees(ip_view(address).1, ip_view(network).1, prefix as nat)
}

/// A byte's top `bits` bits agree under the mask exactly when they agree
/// shifted down.
proof fn lemma_mask(x: u8, y: u8, bits: u8)
    requires
        1 <= bits < 8,
    ensures
        ((x & (0xffu8 << ((8 - bits) as u8))) == (y & (0xffu8 << ((8 - bits) as u8)))) == ((x >> ((8 - bits) as u8)) == (y >> ((8 - bits) as u8))),
{
    assert(((x & (0xffu8 << ((8 - bits) as u8))) == (y & (0xffu8 << ((8 - bits) as u8)))) == ((x >> ((8 - bits) as u8)) == (y >> ((8 - bits) as u8)))) by (bit_vector)
        requires
            1 <= bits < 8,
    ;
}

/// Whether the first `prefix` bits of two equally long octet strings agree.
fn matches(address: &[u8], network: &[u8], prefix: u8) -> (r: bool)
    requires
        address.len() == network.len(),
        address.len() <= 16,
    ensures
        r == prefix_agrees(address@, network@, prefix as nat),
{
    let p = prefix as usize;
    if p > address.len() * 8 {
        return false;
    }
    let whole = p / 8;
    let bits = p % 8;
    let mut i: usize = 0;
    while i < whole
        invariant
            0 <= i <= whole,
            whole as nat == (prefix as nat) / 8,
            (prefix as nat) <= address.len() * 8,
            whole <= address.len(),
            address.len() == network.len(),
            address@.take(i as int) == network@.take(i as int),
        decreases whole - i,
    {
        if address[i] != network[i] {
            assert(address@.take(whole as int)[i as int] != network@.take(whole as int)[i as int]);
            assert(address@.take(whole as int) != network@.take(whole as int));
            return false;
        }
        assert(address@.take(i + 1) =~= address@.take(i as int).push(address@[i as int]));
        assert(network@.take(i + 1) =~= network@.take(i as int).push(network@[i as int]));
        i = i + 1;
    }
    if bits == 0 {
        return true;
    }
    let b = bits as u8;
    let mask: u8 = 0xff << (8 - b);
    proof {
        lemma_mask(address@[whole as int], network@[whole as int], b);
    }
    address[whole] & mask == network[whole] & mask
}

/// Whether `address` is in the network `network/prefix`.
pub fn within(address: IpAddr, network: IpAddr, prefix: u8) -> (r: bool)
    ensures
        r == in_network(address, network, prefix),
{
    match (address, network) {
        (IpAddr::V4(a), IpAddr::V4(n)) => matches(&a, &n, prefix),
        (IpAddr::V6(a), IpAddr::V6(n)) => matches(&a, &n, prefix),
        _ => false,
    }
}

/// The proxies a service believes: a number of hops counted back from the
/// service, addresses, and networks.
#[derive(Clone, Debug, Default)]
pub struct TrustedProxies {
    hops: usize,
    addresses: Vec<IpAddr>,
    networks: Vec<(IpAddr, u8)>,
}

impl TrustedProxies {
    /// How many hops back are believed whoever sent them.
    pub closed spec fn spec_hops(&self) -> usize {
        self.hops
    }

    /// The addresses believed.
    pub closed spec fn spec_addresses(&self) -> Seq<IpAddr> {
        self.addresses@
    }

    /// The networks believed.
    pub closed spec fn spec_networks(&self) -> Seq<(IpAddr, u8)> {
        self.networks@
    }

    /// Whether `address` is named, directly or by a network.
    pub open spec fn names_address(&self, address: IpAddr) -> bool {
        (exists|j: int| 0 <= j < self.spec_addresses().len() && ip_view(#[trigger] self.spec_addresses()[j]) == ip_view(address)) || exists|i: int|
            0 <= i < self.spec_networks().len() && in_network(
                address,
                #[trigger] self.spec_networks()[i].0,
                self.spec_networks()[i].1,
            )
    }

    /// Believes nobody: the default, and the whole security position.
    pub fn none() -> (r: Self)
        ensures
            r.spec_hops() == 0,
            r.spec_addresses().len() == 0,
            r.spec_networks().len() == 0,
    {
        TrustedProxies { hops: 0, addresses: Vec::new(), networks: Vec::new() }
    }

    /// Believes the last `count` hops.
    pub fn hops(count: usize) -> (r: Self)
        ensures
            r.spec_hops() == count,
            r.spec_addresses().len() == 0,
            r.spec_networks().len() == 0,
    {
        TrustedProxies { hops: count, addresses: Vec::new(), networks: Vec::new() }
    }

    /// Believes a proxy at one of `addresses`.
    pub fn addresses(addresses: Vec<IpAddr>) -> (r: Self)
        ensures
            r.spec_hops() == 0,
            r.spec_addresses() == addresses@,
            r.spec_networks().len() == 0,
    {
        TrustedProxies { hops: 0, addresses, networks: Vec::new() }
    }

    /// Believes a proxy in one of `networks`.
    pub fn networks(networks: Vec<(IpAddr, u8)>) -> (r: Self)
        ensures
            r.spec_hops() == 0,
            r.spec_addresses().len() == 0,
            r.spec_networks() == networks@,
    {
        TrustedProxies { hops: 0, addresses: Vec::new(), networks }
    }

    /// Also believes a proxy at one of `addresses`.
    pub fn and_addresses(self, addresses: Vec<IpAddr>) -> (r: Self)
        ensures
            r.spec_hops() == self.spec_hops(),
            r.spec_addresses() == self.spec_addresses() + addresses@,
            r.spec_networks() == self.spec_networks(),
    {
        let mut this = self;
        let mut more = addresses;
        this.addresses.append(&mut more);
        this
    }

    /// Also believes a proxy in one of `networks`.
    pub fn and_networks(self, networks: Vec<(IpAddr, u8)>) -> (r: Self)
        ensures
            r.spec_hops() == self.spec_hops(),
            r.spec_addresses() == self.spec_addresses(),
            r.spec_networks() == self.spec_networks() + networks@,
    {
        let mut this = self;
        let mut more = networks;
        this.networks.append(&mut more);
        this
    }

    /// Whether nobody is believed.
    pub fn trusts_nobody(&self) -> (r: bool)
        ensures
            r == (self.spec_hops() == 0 && self.spec_addresses().len() == 0 && self.spec_networks().len() == 0),
    {
        self.hops == 0 && self.addresses.len() == 0 && self.networks.len() == 0
    }

    /// Whether `address` is named, directly or by a network.
    pub fn names(&self, address: IpAddr) -> (r: bool)
        ensures
            r == self.names_address(address),
    {
        let mut i: usize = 0;
        while i < self.addresses.len()
            invariant
                0 <= i <= self.addresses.len(),
                forall|k: int| 0 <= k < i ==> ip_view(#[trigger] self.addresses@[k]) != ip_view(address),
            decreases self.addresses.len() - i,
        {
            if same_address(&self.addresses[i], &address) {
                assert(ip_view(self.spec_addresses()[i as int]) == ip_view(address));
                return true;
            }
            i = i + 1;
        }
        let mut j: usize = 0;
        while j < self.networks.len()
            invariant
                0 <= j <= self.networks.len(),
                !(exists|m: int| 0 <= m < self.spec_addresses().len() && ip_view(#[trigger] self.spec_addresses()[m]) == ip_view(address)),
                forall|k: int|
                    0 <= k < j ==> !in_network(address, #[trigger] self.networks@[k].0, self.networks@[k].1),
            decreases self.networks.len() - j,
        {
            let (network, prefix) = self.networks[j];
            if within(address, network, prefix) {
                assert(in_network(address, self.spec_networks()[j as int].0, self.spec_networks()[j as int].1));
                return true;
            }
            j = j + 1;
        }
        false
    }
}

/// A node's text, as far as it can be read without parsing an address.
#[derive(Clone, Debug, PartialEq, Eq)]
pub enum NodeText {
    /// `[address]…`: the address inside the brackets.
    Bracketed(Vec<u8>),
    /// `[…` with no closing bracket: no address.
    Unclosed,
    /// Anything else: the whole text, read as an address where it is one,
    /// else the part before its first `:` (a port follows).
    Plain {
        /// The whole trimmed text.
        whole: Vec<u8>,
        /// The part before the first `:`, or the whole where there is none.
        host: Vec<u8>,
    },
}

/// What a node's text reads as.
pub open spec fn node_form(node: Seq<u8>) -> (u8, Seq<u8>, Seq<u8>) {
    let t = trim(node);
    if t.len() > 0 && t[0] == 0x5bu8 {
        match split_once(t.drop_first(), 0x5du8) {
            Some((inside, _)) => (0u8, inside, Seq::empty()),
            None => (1u8, Seq::empty(), Seq::empty()),
        }
    } else {
        (2u8, t, match split_once(t, 0x3au8) {
            Some((host, _)) => host,
            None => t,
        })
    }
}

/// The view of a node's text: its kind (bracketed, unclosed, plain) and its
/// parts.
pub open spec fn node_view(n: NodeText) -> (u8, Seq<u8>, Seq<u8>) {
    match n {
        NodeText::Bracketed(a) => (0u8, a@, Seq::empty()),
        NodeText::Unclosed => (1u8, Seq::empty(), Seq::empty()),
        NodeText::Plain { whole, host } => (2u8, whole@, host@),
    }
}

/// Reads a node's text.
pub fn node_text(node: &[u8]) -> (r: NodeText)
    ensures
        node_view(r) == node_form(node@),
{
    let t = trim_bytes(node);
    if t.len() > 0 && t[0] == 0x5b {
        let rest = slice_to_vec(vstd::slice::slice_subrange(t.as_slice(), 1, t.len()));
        assert(rest@ =~= t@.drop_first());
        match split_once_bytes(rest.as_slice(), 0x5d) {
            Some((inside, _)) => NodeText::Bracketed(inside),
            None => NodeText::Unclosed,
        }
    } else {
        let host = match split_once_bytes(t.as_slice(), 0x3a) {
            Some((h, _)) => h,
            None => slice_to_vec(t.as_slice()),
        };
        NodeText::Plain { whole: t, host }
    }
}

/// `text` with one pair of surrounding quotes removed, where it has them.
pub open spec fn unquoted(text: Seq<u8>) -> Seq<u8> {
    if text.len() >= 2 && text[0] == 0x22u8 && text[text.len() - 1] == 0x22u8 {
        text.subrange(1, text.len() - 1)
    } else {
        text
    }
}

/// `text` with one pair of surrounding quotes removed.
pub fn unquote(text: &[u8]) -> (r: Vec<u8>)
    ensures
        r@ == unquoted(text@),
{
    if text.len() >= 2 && text[0] == 0x22 && text[text.len() - 1] == 0x22 {
        slice_to_vec(vstd::slice::slice_subrange(text, 1, text.len() - 1))
    } else {
        slice_to_vec(text)
    }
}

/// The state after one `name=value` pair of a `Forwarded` element: the
/// element's `for` node (the last one named wins) and the proto seen last.
pub open spec fn after_pair(state: (Option<Seq<u8>>, Option<Seq<u8>>), pair: Seq<u8>) -> (Option<Seq<u8>>, Option<Seq<u8>>) {
    match split_once(pair, 0x3du8) {
        None => state,
        Some((name, raw)) => {
            let value = unquoted(trim(raw));
            if eq_ignore_case(trim(name), ascii("for"@)) {
                (Some(value), state.1)
            } else if eq_ignore_case(trim(name), ascii("proto"@)) {
                (state.0, Some(lower(value)))
            } else {
                state
            }
        },
    }
}

/// The state after the pairs of one element.
pub open spec fn after_pairs(state: (Option<Seq<u8>>, Option<Seq<u8>>), pairs: Seq<Seq<u8>>) -> (Option<Seq<u8>>, Option<Seq<u8>>)
    decreases pairs.len(),
{
    if pairs.len() == 0 {
        state
    } else {
        after_pair(after_pairs(state, pairs.drop_last()), pairs.last())
    }
}

/// The nodes and the proto after the elements of one `Forwarded` line: each
/// element contributes the last node it names.
pub open spec fn after_elements(state: (Seq<Seq<u8>>, Option<Seq<u8>>), elements: Seq<Seq<u8>>) -> (Seq<Seq<u8>>, Option<Seq<u8>>)
    decreases elements.len(),
{
    if elements.len() == 0 {
        state
    } else {
        let before = after_elements(state, elements.drop_last());
        let (node, proto) = after_pairs((None, before.1), split(elements.last(), 0x3bu8));
        (match node {
            Some(n) => before.0.push(n),
            None => before.0,
        }, proto)
    }
}

/// The nodes and the proto of the `Forwarded` lines readable as text.
pub open spec fn forwarded_nodes(values: Seq<Seq<u8>>) -> (Seq<Seq<u8>>, Option<Seq<u8>>)
    decreases values.len(),
{
    if values.len() == 0 {
        (Seq::empty(), None)
    } else {
        let before = forwarded_nodes(values.drop_last());
        if all_visible(values.last()) {
            after_elements(before, split(values.last(), 0x2cu8))
        } else {
            before
        }
    }
}

/// The hops of the `X-Forwarded-For` lines readable as text, in order.
pub open spec fn de_facto_nodes(values: Seq<Seq<u8>>) -> Seq<Seq<u8>>
    decreases values.len(),
{
    if values.len() == 0 {
        Seq::empty()
    } else {
        de_facto_nodes(values.drop_last()) + if all_visible(values.last()) {
            split(values.last(), 0x2cu8).map_values(|hop: Seq<u8>| trim(hop))
        } else {
            Seq::empty()
        }
    }
}

/// The node texts a request's forwarding fields name, oldest first, and the
/// protocol they state: `Forwarded` where any line of it is text, else the
/// de facto pair.
pub open spec fn forwarding(headers: Seq<(Seq<u8>, Seq<u8>)>) -> (Seq<Seq<u8>>, Option<Seq<u8>>) {
    let lines = values_of(headers, ascii("forwarded"@));
    if exists|i: int| 0 <= i < lines.len() && all_visible(#[trigger] lines[i]) {
        forwarded_nodes(lines)
    } else {
        (
            de_facto_nodes(values_of(headers, ascii("x-forwarded-for"@))),
            match first_value(headers, ascii("x-forwarded-proto"@)) {
                Some(v) => if all_visible(v) {
                    Some(lower(trim(split(v, 0x2cu8)[0])))
                } else {
                    None
                },
                None => None,
            },
        )
    }
}

/// The node texts and the protocol a request's forwarding fields state.
pub fn elements(headers: &Fields) -> (r: (Vec<Vec<u8>>, Option<Vec<u8>>))
    ensures
        views(r.0@) == forwarding(headers@).0,
        (match r.1 {
            Some(p) => Some(p@),
            None => None,
        }) == forwarding(headers@).1,
{
    proof {
        reveal_strlit("forwarded");
        reveal_strlit("x-forwarded-for");
        reveal_strlit("x-forwarded-proto");
        reveal_strlit("for");
        reveal_strlit("proto");
    }
    let lines = headers.get_all(literal("forwarded").as_slice());
    let ghost ls = views(lines@);
    let for_name = literal("for");
    let proto_name = literal("proto");
    let mut nodes: Vec<Vec<u8>> = Vec::new();
    let mut proto: Option<Vec<u8>> = None;
    let mut saw = false;
    let mut i: usize = 0;
    while i < lines.len()
        invariant
            0 <= i <= lines.len(),
            ls == views(lines@),
            for_name@ == ascii("for"@),
            proto_name@ == ascii("proto"@),
            saw == (exists|k: int| 0 <= k < i && all_visible(#[trigger] ls[k])),
            (views(nodes@), opt_bytes(proto)) == forwarded_nodes(ls.take(i as int)),
        decreases lines.len() - i,
    {
        assert(ls.take(i + 1).drop_last() =~= ls.take(i as int));
        assert(ls.take(i + 1).last() == lines@[i as int]@);
        if visible(lines[i].as_slice()) {
            saw = true;
            let parts = split_bytes(lines[i].as_slice(), 0x2c);
            let ghost es = views(parts@);
            let ghost start = (views(nodes@), opt_bytes(proto));
            let mut j: usize = 0;
            while j < parts.len()
                invariant
                    0 <= j <= parts.len(),
                    es == views(parts@),
                    for_name@ == ascii("for"@),
                    proto_name@ == ascii("proto"@),
                    (views(nodes@), opt_bytes(proto)) == after_elements(start, es.take(j as int)),
                decreases parts.len() - j,
            {
                assert(es.take(j + 1).drop_last() =~= es.take(j as int));
                assert(es.take(j + 1).last() == parts@[j as int]@);
                let pairs = split_bytes(parts[j].as_slice(), 0x3b);
                let ghost ps = views(pairs@);
                let ghost proto_before = opt_bytes(proto);
                let mut node: Option<Vec<u8>> = None;
                let mut k: usize = 0;
                while k < pairs.len()
                    invariant
                        0 <= k <= pairs.len(),
                        ps == views(pairs@),
                        for_name@ == ascii("for"@),
                        proto_name@ == ascii("proto"@),
                        (opt_bytes(node), opt_bytes(proto)) == after_pairs((None, proto_before), ps.take(k as int)),
                    decreases pairs.len() - k,
                {
                    assert(ps.take(k + 1).drop_last() =~= ps.take(k as int));
                    assert(ps.take(k + 1).last() == pairs@[k as int]@);
                    match split_once_bytes(pairs[k].as_slice(), 0x3d) {
                        None => {},
                        Some((name, raw)) => {
                            let value = unquote(trim_bytes(raw.as_slice()).as_slice());
                            let n = trim_bytes(name.as_slice());
                            if eq_ignore_ascii_case(n.as_slice(), for_name.as_slice()) {
                                node = Some(value);
                            } else if eq_ignore_ascii_case(n.as_slice(), proto_name.as_slice()) {
                                proto = Some(to_lower(value.as_slice()));
                            }
                        },
                    }
                    k = k + 1;
                }
                assert(ps.take(pairs.len() as int) =~= ps);
                let ghost before_nodes = views(nodes@);
                match node {
                    Some(n) => {
                        nodes.push(n);
                        assert(views(nodes@) =~= before_nodes.push(nodes@.last()@));
                    },
                    None => {},
                }
                j = j + 1;
            }
            assert(es.take(parts.len() as int) =~= es);
        }
        i = i + 1;
    }
    assert(ls.take(lines.len() as int) =~= ls);
    if saw {
        return (nodes, proto);
    }
    let hops = headers.get_all(literal("x-forwarded-for").as_slice());
    let ghost hs = views(hops@);
    let mut found: Vec<Vec<u8>> = Vec::new();
    let mut m: usize = 0;
    while m < hops.len()
        invariant
            0 <= m <= hops.len(),
            hs == views(hops@),
            views(found@) == de_facto_nodes(hs.take(m as int)),
        decreases hops.len() - m,
    {
        assert(hs.take(m + 1).drop_last() =~= hs.take(m as int));
        assert(hs.take(m + 1).last() == hops@[m as int]@);
        let ghost before = views(found@);
        if visible(hops[m].as_slice()) {
            let parts = split_bytes(hops[m].as_slice(), 0x2c);
            let ghost es = views(parts@);
            let mut n: usize = 0;
            while n < parts.len()
                invariant
                    0 <= n <= parts.len(),
                    es == views(parts@),
                    views(found@) == before + es.take(n as int).map_values(|hop: Seq<u8>| trim(hop)),
                decreases parts.len() - n,
            {
                let t = trim_bytes(parts[n].as_slice());
                let ghost mid = views(found@);
                found.push(t);
                assert(es[n as int] == parts@[n as int]@);
                assert(es.take(n + 1).map_values(|hop: Seq<u8>| trim(hop)) =~= es.take(n as int).map_values(
                    |hop: Seq<u8>| trim(hop),
                ).push(trim(es[n as int])));
                assert(views(found@) =~= mid.push(t@));
                n = n + 1;
            }
            assert(es.take(parts.len() as int) =~= es);
        } else {
            assert(before + Seq::<Seq<u8>>::empty() =~= before);
        }
        m = m + 1;
    }
    assert(hs.take(hops.len() as int) =~= hs);
    let de_facto_proto = match headers.get(literal("x-forwarded-proto").as_slice()) {
        Some(v) => if visible(v.as_slice()) {
            let pieces = split_bytes(v.as_slice(), 0x2c);
            assert(views(pieces@).len() > 0);
            assert(views(pieces@)[0] == pieces@[0]@);
            Some(to_lower(trim_bytes(pieces[0].as_slice()).as_slice()))
        } else {
            None
        },
        None => None,
    };
    (found, de_facto_proto)
}

/// Who sent a request and over what protocol, as far as the trusted proxies
/// are believed.
#[derive(Clone, Debug, PartialEq, Eq)]
pub struct Forwarded {
    client: Option<IpAddr>,
    proto: Option<Vec<u8>>,
}

/// The client after believing the chain `addresses` (oldest first) back
/// from the hop `believed` positions from its end, where the hop before it
/// was sent by `sender`: each element is believed while its sender is a
/// named proxy or within the trusted hop count.
pub open spec fn believed_client(
    trusted: TrustedProxies,
    addresses: Seq<IpAddr>,
    believed: nat,
    client: Option<IpAddr>,
    sender: Option<IpAddr>,
) -> Option<IpAddr>
    decreases addresses.len() - believed,
{
    if believed >= addresses.len() {
        client
    } else {
        let trusted_sender = (sender matches Some(s) && trusted.names_address(s)) || believed < trusted.spec_hops();
        if !trusted_sender {
            client
        } else {
            let address = addresses[addresses.len() - 1 - believed];
            believed_client(trusted, addresses, believed + 1, Some(address), Some(address))
        }
    }
}

impl Forwarded {
    /// The client address believed.
    pub closed spec fn spec_client(&self) -> Option<IpAddr> {
        self.client
    }

    /// The protocol believed.
    pub closed spec fn spec_proto(&self) -> Option<Seq<u8>> {
        match self.proto {
            Some(p) => Some(p@),
            None => None,
        }
    }

    /// What a request says of its sender, given the addresses its forwarding
    /// fields name (oldest first, as read by the server from the node texts
    /// [`elements`] returns), the protocol they state, the peer that sent it,
    /// and whom to believe.
    pub open spec fn resolution(
        addresses: Seq<IpAddr>,
        proto: Option<Seq<u8>>,
        peer: Option<IpAddr>,
        trusted: TrustedProxies,
    ) -> (Option<IpAddr>, Option<Seq<u8>>) {
        if trusted.spec_hops() == 0 && trusted.spec_addresses().len() == 0 && trusted.spec_networks().len() == 0 {
            (peer, None)
        } else {
            let peer_is_trusted = trusted.spec_hops() > 0 || (peer matches Some(p) && trusted.names_address(p));
            (believed_client(trusted, addresses, 0, peer, peer), if peer_is_trusted {
                proto
            } else {
                None
            })
        }
    }

    /// Resolves who sent a request.
    pub fn resolve(
        addresses: &Vec<IpAddr>,
        proto: Option<Vec<u8>>,
        peer: Option<IpAddr>,
        trusted: &TrustedProxies,
    ) -> (r: Self)
        ensures
            (r.spec_client(), r.spec_proto()) == Self::resolution(addresses@, opt_bytes(proto), peer, *trusted),
    {
        if trusted.trusts_nobody() {
            return Forwarded { client: peer, proto: None };
        }
        let peer_is_trusted = trusted.hops > 0 || match peer {
            Some(p) => trusted.names(p),
            None => false,
        };
        let mut client = peer;
        let mut sender = peer;
        let mut believed: usize = 0;
        while believed < addresses.len()
            invariant
                0 <= believed <= addresses.len(),
                believed_client(*trusted, addresses@, 0, peer, peer) == believed_client(
                    *trusted,
                    addresses@,
                    believed as nat,
                    client,
                    sender,
                ),
            ensures
                believed_client(*trusted, addresses@, 0, peer, peer) == client,
            decreases addresses.len() - believed,
        {
            let trusted_sender = match sender {
                Some(s) => trusted.names(s),
                None => false,
            } || believed < trusted.hops;
            if !trusted_sender {
                break;
            }
            let address = addresses[addresses.len() - 1 - believed];
            client = Some(address);
            sender = Some(address);
            believed = believed + 1;
        }
        Forwarded { client, proto: if peer_is_trusted {
            proto
        } else {
            None
        } }
    }

    /// The client address believed, if any.
    pub fn client(&self) -> (r: Option<IpAddr>)
        ensures
            r == self.spec_client(),
    {
        self.client
    }

    /// The protocol believed, if any.
    pub fn proto(&self) -> (r: Option<Vec<u8>>)
        ensures
            (match r {
                Some(p) => Some(p@),
                None => None,
            }) == self.spec_proto(),
    {
        match &self.proto {
            Some(p) => Some(slice_to_vec(p.as_slice())),
            None => None,
        }
    }

    /// Whether the client reached the first proxy over HTTPS, where that is
    /// believed.
    pub fn client_is_secure(&self) -> (r: Option<bool>)
        ensures
            r == (match self.spec_proto() {
                Some(p) => Some(p == ascii("https"@)),
                None => None,
            }),
    {
        proof {
            reveal_strlit("https");
        }
        match &self.proto {
            Some(p) => Some(bytes_eq(p.as_slice(), literal("https").as_slice())),
            None => None,
        }
    }
}

/// Where nobody is trusted, no forwarding field is believed: the client is
/// the peer and no protocol is known.
pub proof fn an_unconfigured_policy_believes_no_forwarding_field(
    addresses: Seq<IpAddr>,
    proto: Option<Seq<u8>>,
    peer: Option<IpAddr>,
    trusted: TrustedProxies,
)
    requires
        trusted.spec_hops() == 0,
        trusted.spec_addresses().len() == 0,
        trusted.spec_networks().len() == 0,
    ensures
        Forwarded::resolution(addresses, proto, peer, trusted) == (peer, None::<Seq<u8>>),
{
}

/// Trusting only a number of hops, a chain is believed no further back than
/// that many elements, however long a client forges it: the client is the
/// peer or one of the last `hops` addresses.
pub proof fn a_forged_chain_cannot_outrun_the_trust(
    trusted: TrustedProxies,
    addresses: Seq<IpAddr>,
    believed: nat,
    client: Option<IpAddr>,
    sender: Option<IpAddr>,
)
    requires
        trusted.spec_addresses().len() == 0,
        trusted.spec_networks().len() == 0,
    ensures
        believed_client(trusted, addresses, believed, client, sender) == client || exists|j: int|
            believed <= j < trusted.spec_hops() && j < addresses.len() && believed_client(
                trusted,
                addresses,
                believed,
                client,
                sender,
            ) == Some(#[trigger] addresses[addresses.len() - 1 - j]),
    decreases addresses.len() - believed,
{
    if believed < addresses.len() {
        let trusted_sender = (sender matches Some(s) && trusted.names_address(s)) || believed < trusted.spec_hops();
        assert(sender matches Some(s) ==> !trusted.names_address(s));
        if trusted_sender {
            let address = addresses[addresses.len() - 1 - believed];
            a_forged_chain_cannot_outrun_the_trust(trusted, addresses, believed + 1, Some(address), Some(address));
        }
    }
}

} // verus!
