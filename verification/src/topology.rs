//! Layer-2 topology discovery: the interfaces of a host, the peers found on
//! them, and the map of links and VLANs between them.
pub mod packet;

use vstd::prelude::*;
use crate::topology::packet::Peer;
use crate::text::{chars_of, trim_bounds, trim_ws, split_spans, split_fields, span_fields, parse_unsigned, parse_unsigned_in, push_decimal, decimal, lossy_string, utf8_lossy, hex_char, push_hex_digit,
    lemma_hex_char_value, lemma_split_no_sep, lemma_split_append_field, trim_start_ws, trim_end_ws,
    is_white_space, digits_value, unsigned_digits, is_digit_in, lemma_decimal_parses,
    lemma_decimal_only_digits};

verus! {

/// A text that is not the representation it should be.
#[derive(Debug, PartialEq, Eq, Structural, Clone, Copy)]
pub struct ParseError;

/// The operational state of an interface.
#[derive(Debug, PartialEq, Eq, Structural, Hash, Clone, Copy)]
pub enum OperState {
    Up,
    Down,
}

/// The ASCII lower-case form of a character.
pub open spec fn ascii_lower(c: char) -> char {
    if 'A' <= c <= 'Z' {
        ((c as u32) + 32) as char
    } else {
        c
    }
}

/// `t` is the lower-case word `w` in any mix of cases. For the words that
/// are read here (letters other than `k`), this is exactly what comparing
/// `t.to_lowercase()` with `w` decides.
pub open spec fn is_word_ignoring_case(t: Seq<char>, w: Seq<char>) -> bool {
    t.len() == w.len() && forall|i: int| 0 <= i < t.len() ==> ascii_lower(#[trigger] t[i]) == w[i]
}

/// What the text of an operational state reads as, once trimmed.
pub open spec fn oper_state_of(s: Seq<char>) -> Result<OperState, ParseError> {
    if is_word_ignoring_case(trim_ws(s), seq!['u', 'p']) {
        Ok(OperState::Up)
    } else if is_word_ignoring_case(trim_ws(s), seq!['d', 'o', 'w', 'n']) {
        Ok(OperState::Down)
    } else {
        Err(ParseError)
    }
}

fn lower(c: char) -> (r: char)
    ensures
        r == ascii_lower(c),
{
    if 'A' <= c && c <= 'Z' {
        ((c as u8) + 32) as char
    } else {
        c
    }
}

/// Whether `s[lo..hi]` is `word` in any mix of cases.
fn word_ignoring_case(s: &Vec<char>, lo: usize, hi: usize, word: &Vec<char>) -> (b: bool)
    requires
        lo <= hi <= s@.len(),
    ensures
        b == is_word_ignoring_case(s@.subrange(lo as int, hi as int), word@),
{
    if hi - lo != word.len() {
        return false;
    }
    let mut i: usize = 0;
    while i < word.len()
        invariant
            lo <= hi <= s@.len(),
            hi - lo == word@.len(),
            i <= word@.len(),
            forall|k: int| 0 <= k < i ==> ascii_lower(#[trigger] s@[lo + k]) == word@[k],
        decreases word@.len() - i,
    {
        if lower(s[lo + i]) != word[i] {
            assert(s@.subrange(lo as int, hi as int)[i as int] == s@[lo + i]);
            return false;
        }
        i = i + 1;
    }
    assert forall|k: int| 0 <= k < hi - lo implies ascii_lower(
        #[trigger] s@.subrange(lo as int, hi as int)[k],
    ) == word@[k] by {
        assert(s@.subrange(lo as int, hi as int)[k] == s@[lo + k]);
    }
    true
}

impl OperState {
    /// Reads an operational state: `up` or `down` in any case, with white
    /// space around it allowed.
    pub fn from_text(s: &str) -> (r: Result<OperState, ParseError>)
        ensures
            r == oper_state_of(s@),
    {
        let chars = chars_of(s);
        let (lo, hi) = trim_bounds(&chars, 0, chars.len());
        assert(chars@.subrange(0, chars@.len() as int) =~= s@);
        let up: Vec<char> = vec!['u', 'p'];
        let down: Vec<char> = vec!['d', 'o', 'w', 'n'];
        assert(up@ =~= seq!['u', 'p']);
        assert(down@ =~= seq!['d', 'o', 'w', 'n']);
        if word_ignoring_case(&chars, lo, hi, &up) {
            Ok(OperState::Up)
        } else if word_ignoring_case(&chars, lo, hi, &down) {
            Ok(OperState::Down)
        } else {
            Err(ParseError)
        }
    }
}

impl std::str::FromStr for OperState {
    type Err = ParseError;

    fn from_str(s: &str) -> (r: Result<Self, Self::Err>)
        ensures
            r == oper_state_of(s@),
    {
        OperState::from_text(s)
    }
}

impl Default for OperState {
    fn default() -> (r: Self)
        ensures
            r == OperState::Up,
    {
        OperState::Up
    }
}

/// An Ethernet MAC address.
#[derive(Debug, Default, PartialEq, Eq, Structural, Hash, Clone, Copy)]
pub struct MacAddress(pub u8, pub u8, pub u8, pub u8, pub u8, pub u8);

/// Two lower-case hexadecimal digits of a byte.
pub open spec fn hex2(b: u8) -> Seq<char> {
    seq![hex_char((b / 16) as nat), hex_char((b % 16) as nat)]
}

/// The text of a MAC address: six pairs of lower-case hexadecimal digits
/// joined by colons.
pub open spec fn mac_text(b: Seq<u8>) -> Seq<char> {
    hex2(b[0]) + seq![':'] + hex2(b[1]) + seq![':'] + hex2(b[2]) + seq![':'] + hex2(b[3])
        + seq![':'] + hex2(b[4]) + seq![':'] + hex2(b[5])
}

/// The colon-separated fields of a MAC address text, once trimmed.
pub open spec fn mac_fields(s: Seq<char>) -> Seq<Seq<char>> {
    split_fields(trim_ws(s), ':')
}

/// A text that reading a MAC address can take: if it has six fields, each
/// is a hexadecimal byte (reading one that is not fails hard).
pub open spec fn mac_text_readable(s: Seq<char>) -> bool {
    mac_fields(s).len() == 6 ==> forall|i: int|
        0 <= i < 6 ==> parse_unsigned(#[trigger] mac_fields(s)[i], 16, 255) is Some
}

impl MacAddress {
    /// The six octets of the address.
    pub open spec fn bytes(self) -> Seq<u8> {
        seq![self.0, self.1, self.2, self.3, self.4, self.5]
    }

    /// The address whose octets are `b`.
    pub open spec fn of_bytes(b: Seq<u8>) -> MacAddress {
        MacAddress(b[0], b[1], b[2], b[3], b[4], b[5])
    }

    /// The broadcast address `ff:ff:ff:ff:ff:ff`.
    pub open spec fn is_broadcast_spec(self) -> bool {
        self.bytes() == seq![0xffu8, 0xffu8, 0xffu8, 0xffu8, 0xffu8, 0xffu8]
    }

    /// The octets of the address.
    pub fn octets(&self) -> (a: [u8; 6])
        ensures
            a@ == self.bytes(),
    {
        let a = [self.0, self.1, self.2, self.3, self.4, self.5];
        assert(a@ =~= self.bytes());
        a
    }

    /// Whether this is the broadcast address.
    pub fn is_broadcast(&self) -> (b: bool)
        ensures
            b == self.is_broadcast_spec(),
    {
        let r = self.0 == 0xff && self.1 == 0xff && self.2 == 0xff && self.3 == 0xff && self.4
            == 0xff && self.5 == 0xff;
        assert(r ==> self.bytes() =~= seq![0xffu8, 0xffu8, 0xffu8, 0xffu8, 0xffu8, 0xffu8]);
        assert(self.is_broadcast_spec() ==> self.bytes()[0] == 0xff && self.bytes()[1] == 0xff
            && self.bytes()[2] == 0xff && self.bytes()[3] == 0xff && self.bytes()[4] == 0xff
            && self.bytes()[5] == 0xff);
        r
    }

    /// Whether reading `s` as a MAC address would go through: when it has
    /// six fields, each is a hexadecimal byte.
    pub fn is_readable(s: &str) -> (b: bool)
        ensures
            b == mac_text_readable(s@),
    {
        let chars = chars_of(s);
        let (lo, hi) = trim_bounds(&chars, 0, chars.len());
        assert(chars@.subrange(0, chars@.len() as int) =~= s@);
        let spans = split_spans(&chars, lo, hi, ':');
        if spans.len() != 6 {
            return true;
        }
        let mut i: usize = 0;
        while i < 6
            invariant
                spans@.len() == 6,
                span_fields(chars@, spans@) == mac_fields(s@),
                forall|k: int|
                    0 <= k < spans@.len() ==> (#[trigger] spans@[k]).0 <= spans@[k].1
                        <= chars@.len(),
                forall|k: int|
                    0 <= k < i ==> parse_unsigned(#[trigger] mac_fields(s@)[k], 16, 255) is Some,
            decreases 6 - i,
        {
            let (a, b) = spans[i];
            if parse_unsigned_in(&chars, a, b, 16, 255).is_none() {
                assert(span_fields(chars@, spans@)[i as int] == chars@.subrange(a as int, b as int));
                return false;
            }
            assert(span_fields(chars@, spans@)[i as int] == chars@.subrange(a as int, b as int));
            i = i + 1;
        }
        true
    }

    /// Reads a MAC address: six hexadecimal bytes separated by colons,
    /// with white space around the text allowed. A text of another number
    /// of fields gives `ParseError`.
    pub fn from_text(s: &str) -> (r: Result<MacAddress, ParseError>)
        requires
            mac_text_readable(s@),
        ensures
            mac_fields(s@).len() != 6 ==> r == Err::<MacAddress, ParseError>(ParseError),
            mac_fields(s@).len() == 6 ==> (r matches Ok(m) && forall|i: int|
                0 <= i < 6 ==> parse_unsigned(#[trigger] mac_fields(s@)[i], 16, 255) == Some(
                    m.bytes()[i] as nat,
                )),
    {
        let chars = chars_of(s);
        let (lo, hi) = trim_bounds(&chars, 0, chars.len());
        assert(chars@.subrange(0, chars@.len() as int) =~= s@);
        let spans = split_spans(&chars, lo, hi, ':');
        if spans.len() != 6 {
            return Err(ParseError);
        }
        let mut octets: Vec<u8> = Vec::new();
        let mut i: usize = 0;
        while i < 6
            invariant
                spans@.len() == 6,
                span_fields(chars@, spans@) == mac_fields(s@),
                mac_text_readable(s@),
                forall|k: int|
                    0 <= k < spans@.len() ==> (#[trigger] spans@[k]).0 <= spans@[k].1
                        <= chars@.len(),
                octets@.len() == i,
                i <= 6,
                forall|k: int|
                    0 <= k < i ==> parse_unsigned(#[trigger] mac_fields(s@)[k], 16, 255) == Some(
                        octets@[k] as nat,
                    ),
            decreases 6 - i,
        {
            let (a, b) = spans[i];
            assert(span_fields(chars@, spans@)[i as int] == chars@.subrange(a as int, b as int));
            assert(parse_unsigned(mac_fields(s@)[i as int], 16, 255) is Some);
            let v = match parse_unsigned_in(&chars, a, b, 16, 255) {
                Some(v) => v,
                None => {
                    return Err(ParseError);
                },
            };
            octets.push(v as u8);
            i = i + 1;
        }
        let m = MacAddress(octets[0], octets[1], octets[2], octets[3], octets[4], octets[5]);
        Ok(m)
    }

    /// The text of the address: lower-case hexadecimal pairs joined by
    /// colons.
    pub fn to_string(&self) -> (s: String)
        ensures
            s@ == mac_text(self.bytes()),
    {
        proof {
            reveal_strlit(":");
        }
        let mut s = String::new();
        let b = self.octets();
        let mut i: usize = 0;
        while i < 6
            invariant
                b@ == self.bytes(),
                i <= 6,
                s@ == if i == 0 {
                    Seq::<char>::empty()
                } else {
                    mac_text_prefix(self.bytes(), i as int)
                },
            decreases 6 - i,
        {
            let ghost before = s@;
            proof {
                reveal_strlit(":");
            }
            if i > 0 {
                s.append(":");
            }
            push_hex_digit(&mut s, b[i] / 16);
            push_hex_digit(&mut s, b[i] % 16);
            proof {
                let p = self.bytes();
                if i == 0 {
                    assert(s@ =~= hex2(p[0]));
                } else {
                    assert(s@ =~= before + seq![':'] + hex2(p[i as int]));
                }
            }
            i = i + 1;
        }
        proof {
            reveal_with_fuel(mac_text_prefix, 7);
            assert(mac_text(self.bytes()) =~= mac_text_prefix(self.bytes(), 6));
        }
        s
    }
}

/// The text of the first `n` octets of a MAC address (`n` at least 1).
pub open spec fn mac_text_prefix(b: Seq<u8>, n: int) -> Seq<char>
    decreases n,
{
    if n <= 1 {
        hex2(b[0])
    } else {
        mac_text_prefix(b, n - 1) + seq![':'] + hex2(b[n - 1])
    }
}

impl From<[u8; 6]> for MacAddress {
    fn from(v: [u8; 6]) -> (m: Self) {
        MacAddress(v[0], v[1], v[2], v[3], v[4], v[5])
    }
}

impl vstd::std_specs::convert::FromSpecImpl<[u8; 6]> for MacAddress {
    open spec fn obeys_from_spec() -> bool {
        true
    }

    open spec fn from_spec(v: [u8; 6]) -> Self {
        MacAddress::of_bytes(v@)
    }
}

/// A network interface of a host.
#[derive(Debug, PartialEq, Eq, Hash)]
pub struct Interface {
    pub index: u32,
    pub name: String,
    pub mac: MacAddress,
    pub state: OperState,
}

impl View for Interface {
    type V = (u32, Seq<char>, MacAddress, OperState);

    open spec fn view(&self) -> Self::V {
        (self.index, self.name@, self.mac, self.state)
    }
}

impl Clone for Interface {
    fn clone(&self) -> (r: Self)
        ensures
            r@ == self@,
    {
        Interface { index: self.index, name: self.name.clone(), mac: self.mac, state: self.state }
    }
}

impl Default for Interface {
    fn default() -> (r: Self)
        ensures
            r@ == (0u32, Seq::<char>::empty(), MacAddress(0, 0, 0, 0, 0, 0), OperState::Up),
    {
        Interface {
            index: 0,
            name: String::new(),
            mac: MacAddress(0, 0, 0, 0, 0, 0),
            state: OperState::Up,
        }
    }
}

/// An interface of a named host: one end of a link.
#[derive(PartialEq, Eq, Hash, Debug)]
pub struct Node {
    pub host: String,
    pub nic: Interface,
}

impl View for Node {
    type V = (Seq<char>, (u32, Seq<char>, MacAddress, OperState));

    open spec fn view(&self) -> Self::V {
        (self.host@, self.nic@)
    }
}

/// The text of a node: host, interface name and MAC address, separated by
/// spaces.
pub open spec fn node_text(n: (Seq<char>, (u32, Seq<char>, MacAddress, OperState))) -> Seq<char> {
    n.0 + seq![' '] + n.1.1 + seq![' '] + mac_text(n.1.2.bytes())
}

impl Node {
    /// The text of this node: host, interface name and MAC address,
    /// separated by spaces.
    pub fn to_string(&self) -> (s: String)
        ensures
            s@ == node_text(self@),
    {
        proof {
            reveal_strlit(" ");
        }
        let mut s = self.host.clone();
        s.append(" ");
        s.append(self.nic.name.as_str());
        s.append(" ");
        let m = self.nic.mac.to_string();
        s.append(m.as_str());
        s
    }

    /// Whether two nodes are the same: same host and same interface.
    pub fn same_as(&self, other: &Node) -> (b: bool)
        ensures
            b == (self@ == other@),
    {
        self.host == other.host && self.nic.index == other.nic.index && self.nic.name
            == other.nic.name && self.nic.mac == other.nic.mac && self.nic.state == other.nic.state
    }
}

/// The index of the first interface of `nics` whose index is `ifindex`.
pub open spec fn first_interface(nics: Seq<Interface>, ifindex: u32) -> Option<int> {
    if exists|i: int| 0 <= i < nics.len() && #[trigger] nics[i].index == ifindex {
        Some(
            choose|i: int|
                0 <= i < nics.len() && #[trigger] nics[i].index == ifindex && forall|j: int|
                    0 <= j < i ==> #[trigger] nics[j].index != ifindex,
        )
    } else {
        None
    }
}

/// The ends of a link, as views of the two nodes.
pub type LinkEnds = (
    (Seq<char>, (u32, Seq<char>, MacAddress, OperState)),
    (Seq<char>, (u32, Seq<char>, MacAddress, OperState)),
);

/// The link that a peer's report, received on interface `ifindex`, is
/// about: from this host's first interface with that index to the peer's
/// interface, known by the peer's host, interface name and MAC address (its
/// index 0, its state up). No link when no interface has that index.
#[verifier::opaque]
pub open spec fn report_link(host: Seq<char>, nics: Seq<Interface>, ifindex: u32, peer: Peer) -> Option<LinkEnds> {
    match first_interface(nics, ifindex) {
        Some(i) => Some(((host, nics[i]@), (peer.host@, (0u32, peer.nic@, peer.mac, OperState::Up)))),
        None => None,
    }
}

/// The first interface with an index is where `find_interface` stops.
proof fn lemma_first_interface_at(nics: Seq<Interface>, ifindex: u32, i: int)
    requires
        0 <= i < nics.len(),
        nics[i].index == ifindex,
        forall|j: int| 0 <= j < i ==> #[trigger] nics[j].index != ifindex,
    ensures
        first_interface(nics, ifindex) == Some(i),
{
    let c = choose|c: int|
        0 <= c < nics.len() && #[trigger] nics[c].index == ifindex && forall|j: int|
            0 <= j < c ==> #[trigger] nics[j].index != ifindex;
    assert(nics[i].index == ifindex);
    if c < i {
        assert(nics[c].index != ifindex);
    } else if c > i {
        assert(nics[i].index != ifindex);
    }
}

/// Finds the first interface of `nics` whose index is `ifindex`.
pub fn find_interface(nics: &Vec<Interface>, ifindex: u32) -> (r: Option<usize>)
    ensures
        r matches Some(i) ==> i < nics@.len() && nics@[i as int].index == ifindex && forall|j: int|
            0 <= j < i ==> #[trigger] nics@[j].index != ifindex,
        r is None ==> forall|j: int| 0 <= j < nics@.len() ==> #[trigger] nics@[j].index != ifindex,
{
    let mut i: usize = 0;
    while i < nics.len()
        invariant
            i <= nics@.len(),
            forall|j: int| 0 <= j < i ==> #[trigger] nics@[j].index != ifindex,
        decreases nics@.len() - i,
    {
        if nics[i].index == ifindex {
            return Some(i);
        }
        i = i + 1;
    }
    None
}

/// The values are strictly increasing: sorted, without duplicates.
pub open spec fn strictly_increasing(v: Seq<u16>) -> bool {
    forall|i: int, j: int| 0 <= i < j < v.len() ==> v[i] < v[j]
}

/// Adds `x` to a strictly increasing list, keeping it so.
pub fn insert_sorted(v: &mut Vec<u16>, x: u16)
    requires
        strictly_increasing(old(v)@),
    ensures
        strictly_increasing(final(v)@),
        final(v)@.to_set() == old(v)@.to_set().insert(x),
{
    let mut i: usize = 0;
    while i < v.len() && v[i] < x
        invariant
            i <= v@.len(),
            v@ == old(v)@,
            strictly_increasing(v@),
            forall|k: int| 0 <= k < i ==> #[trigger] v@[k] < x,
        decreases v@.len() - i,
    {
        i = i + 1;
    }
    if i < v.len() && v[i] == x {
        assert(v@[i as int] == x);
        assert(v@.to_set() =~= old(v)@.to_set().insert(x));
        return;
    }
    let ghost before = v@;
    assert(forall|k: int| i <= k < before.len() ==> #[trigger] before[k] > x) by {
        assert forall|k: int| i <= k < before.len() implies #[trigger] before[k] > x by {
            if k > i {
                assert(before[i as int] < before[k]);
            }
        }
    }
    v.insert(i, x);
    assert(v@ =~= before.take(i as int).push(x) + before.skip(i as int));
    assert forall|a: int, b: int| 0 <= a < b < v@.len() implies v@[a] < v@[b] by {
        if b < i {
            assert(v@[a] == before[a] && v@[b] == before[b]);
        } else if b == i {
            assert(v@[a] == before[a]);
        } else if a < i {
            assert(v@[a] == before[a] && v@[b] == before[b - 1]);
        } else if a == i {
            assert(v@[b] == before[b - 1]);
        } else {
            assert(v@[a] == before[a - 1] && v@[b] == before[b - 1]);
        }
    }
    assert forall|y: u16| #[trigger] v@.to_set().contains(y) <==> before.to_set().insert(x).contains(y) by {
        if v@.contains(y) {
            let k = choose|k: int| 0 <= k < v@.len() && v@[k] == y;
            if k < i {
                assert(before[k] == y);
            } else if k > i {
                assert(before[k - 1] == y);
            }
        }
        if before.contains(y) {
            let k = choose|k: int| 0 <= k < before.len() && before[k] == y;
            if k < i {
                assert(v@[k] == y);
            } else {
                assert(v@[k + 1] == y);
            }
        }
        if y == x {
            assert(v@[i as int] == y);
        }
    }
    assert(v@.to_set() =~= before.to_set().insert(x));
}

/// The links that were seen between the interfaces of this host and those
/// of its peers, each with the VLANs that it was seen on.
pub struct Topo {
    pub connection: Vec<((Node, Node), Vec<u16>)>,
}

impl Topo {
    /// The two ends of link `i`.
    pub open spec fn link(self, i: int) -> (
        (Seq<char>, (u32, Seq<char>, MacAddress, OperState)),
        (Seq<char>, (u32, Seq<char>, MacAddress, OperState)),
    ) {
        (self.connection@[i].0.0@, self.connection@[i].0.1@)
    }

    /// The VLANs of link `i`.
    pub open spec fn vlans(self, i: int) -> Seq<u16> {
        self.connection@[i].1@
    }

    /// Each link is listed once, with its VLANs sorted and without
    /// duplicates.
    pub open spec fn wf(self) -> bool {
        &&& forall|i: int, j: int|
            0 <= i < j < self.connection@.len() ==> self.link(i) != self.link(j)
        &&& forall|i: int| 0 <= i < self.connection@.len() ==> strictly_increasing(#[trigger] self.vlans(i))
    }

    /// The index of the link between `me` and `peer`, if it is listed.
    pub open spec fn link_index(
        self,
        me: (Seq<char>, (u32, Seq<char>, MacAddress, OperState)),
        peer: (Seq<char>, (u32, Seq<char>, MacAddress, OperState)),
    ) -> Option<int> {
        if exists|i: int| 0 <= i < self.connection@.len() && #[trigger] self.link(i) == (me, peer) {
            Some(choose|i: int| 0 <= i < self.connection@.len() && #[trigger] self.link(i) == (me, peer))
        } else {
            None
        }
    }

    /// `after` is `before` with VLAN `vlan` recorded on the link between `me`
    /// and `peer`: added to the VLANs of that link if it is listed, else
    /// listed as a new link with that VLAN alone; every other link is kept.
    pub open spec fn recorded(
        before: Topo,
        after: Topo,
        me: (Seq<char>, (u32, Seq<char>, MacAddress, OperState)),
        peer: (Seq<char>, (u32, Seq<char>, MacAddress, OperState)),
        vlan: u16,
    ) -> bool {
        match before.link_index(me, peer) {
            Some(k) => {
                &&& after.connection@.len() == before.connection@.len()
                &&& forall|i: int|
                    0 <= i < before.connection@.len() ==> #[trigger] after.link(i) == before.link(i)
                &&& forall|i: int|
                    0 <= i < before.connection@.len() && i != k ==> #[trigger] after.vlans(i)
                        == before.vlans(i)
                &&& after.vlans(k).to_set() == before.vlans(k).to_set().insert(vlan)
            },
            None => {
                &&& after.connection@.len() == before.connection@.len() + 1
                &&& forall|i: int|
                    0 <= i < before.connection@.len() ==> #[trigger] after.link(i) == before.link(i)
                        && after.vlans(i) == before.vlans(i)
                &&& after.link(before.connection@.len() as int) == (me, peer)
                &&& after.vlans(before.connection@.len() as int) == seq![vlan]
            },
        }
    }

    /// An empty map of links.
    pub fn new() -> (t: Topo)
        ensures
            t.wf(),
            t.connection@.len() == 0,
    {
        Topo { connection: Vec::new() }
    }

    /// Records that the link between `me` and `peer` was seen on VLAN
    /// `vlan`.
    pub fn record(&mut self, me: Node, peer: Node, vlan: u16)
        requires
            old(self).wf(),
        ensures
            final(self).wf(),
            Topo::recorded(*old(self), *final(self), me@, peer@, vlan),
    {
        let ghost key = (me@, peer@);
        let mut i: usize = 0;
        while i < self.connection.len()
            invariant
                i <= self.connection@.len(),
                self.wf(),
                *self == *old(self),
                key == (me@, peer@),
                forall|j: int| 0 <= j < i ==> #[trigger] self.link(j) != key,
            decreases self.connection@.len() - i,
        {
            let e = &self.connection[i];
            assert(*e == self.connection@[i as int]);
            let same_me = e.0.0.same_as(&me);
            let same_peer = e.0.1.same_as(&peer);
            assert(same_me && same_peer <==> self.link(i as int) == key);
            if same_me && same_peer {
                let ghost before = *self;
                assert(self.link(i as int) == key);
                assert(strictly_increasing(before.vlans(i as int)));
                let mut entry = self.connection.remove(i);
                assert(entry == before.connection@[i as int]);
                insert_sorted(&mut entry.1, vlan);
                self.connection.insert(i, entry);
                proof {
                    assert(before.link_index(me@, peer@) == Some(i as int)) by {
                        let k = choose|k: int| 0 <= k < before.connection@.len() && #[trigger] before.link(k) == key;
                        if k != i as int {
                            assert(before.link(k) == before.link(i as int));
                        }
                    }
                    assert forall|j: int| 0 <= j < before.connection@.len() implies #[trigger] self.link(j)
                        == before.link(j) by {
                        assert(self.connection@[j].0 == before.connection@[j].0);
                    }
                    assert forall|j: int| 0 <= j < before.connection@.len() && j != i implies #[trigger] self.vlans(j)
                        == before.vlans(j) by {
                        assert(self.connection@[j] == before.connection@[j]);
                    }
                    assert forall|a: int, b: int| 0 <= a < b < self.connection@.len() implies self.link(a) != self.link(b) by {
                        assert(self.link(a) == before.link(a));
                        assert(self.link(b) == before.link(b));
                    }
                    assert forall|a: int| 0 <= a < self.connection@.len() implies strictly_increasing(#[trigger] self.vlans(a)) by {
                        if a != i {
                            assert(self.vlans(a) == before.vlans(a));
                        }
                    }
                }
                return;
            }
            i = i + 1;
        }
        let ghost before = *self;
        let mut vlans: Vec<u16> = Vec::new();
        vlans.push(vlan);
        self.connection.push(((me, peer), vlans));
        proof {
            assert(before.link_index(key.0, key.1) is None);
            assert(self.vlans(before.connection@.len() as int) =~= seq![vlan]);
            assert forall|j: int| 0 <= j < before.connection@.len() implies #[trigger] self.link(j)
                == before.link(j) && self.vlans(j) == before.vlans(j) by {
                assert(self.connection@[j] == before.connection@[j]);
            }
            assert forall|a: int, b: int| 0 <= a < b < self.connection@.len() implies self.link(a) != self.link(b) by {
                assert(self.link(a) == before.link(a));
                if b < before.connection@.len() {
                    assert(self.link(b) == before.link(b));
                }
            }
            assert forall|a: int| 0 <= a < self.connection@.len() implies strictly_increasing(#[trigger] self.vlans(a)) by {
                if a < before.connection@.len() {
                    assert(self.vlans(a) == before.vlans(a));
                }
            }
        }
    }
}

impl Topo {
    /// The map as a mapping: each listed link to the set of VLANs seen on
    /// it.
    pub open spec fn links(self) -> Map<
        (
            (Seq<char>, (u32, Seq<char>, MacAddress, OperState)),
            (Seq<char>, (u32, Seq<char>, MacAddress, OperState)),
        ),
        Set<u16>,
    > {
        Map::new(
            |k: (
                (Seq<char>, (u32, Seq<char>, MacAddress, OperState)),
                (Seq<char>, (u32, Seq<char>, MacAddress, OperState)),
            )| self.link_index(k.0, k.1) is Some,
            |k: (
                (Seq<char>, (u32, Seq<char>, MacAddress, OperState)),
                (Seq<char>, (u32, Seq<char>, MacAddress, OperState)),
            )| self.vlans(self.link_index(k.0, k.1)->0).to_set(),
        )
    }
}

/// In a well-formed map, the link listed at `i` is found at `i`.
proof fn lemma_link_index_at(t: Topo, i: int)
    requires
        t.wf(),
        0 <= i < t.connection@.len(),
    ensures
        t.link_index(t.link(i).0, t.link(i).1) == Some(i),
{
    let key = t.link(i);
    assert(t.link(i) == (key.0, key.1));
    let j = choose|j: int| 0 <= j < t.connection@.len() && #[trigger] t.link(j) == (key.0, key.1);
    if j != i {
        if j < i {
            assert(t.link(j) != t.link(i));
        } else {
            assert(t.link(i) != t.link(j));
        }
    }
}

/// Recording a VLAN on a link adds it to the VLANs of that link, starting
/// from none when the link was not listed, and leaves every other link and
/// its VLANs as they were.
pub proof fn lemma_record_links(
    before: Topo,
    after: Topo,
    me: (Seq<char>, (u32, Seq<char>, MacAddress, OperState)),
    peer: (Seq<char>, (u32, Seq<char>, MacAddress, OperState)),
    vlan: u16,
)
    requires
        before.wf(),
        after.wf(),
        Topo::recorded(before, after, me, peer, vlan),
    ensures
        after.links() == before.links().insert(
            (me, peer),
            if before.links().contains_key((me, peer)) {
                before.links()[(me, peer)].insert(vlan)
            } else {
                set![vlan]
            },
        ),
{
    let n = before.connection@.len() as int;
    let key = (me, peer);
    let expected = before.links().insert(
        key,
        if before.links().contains_key(key) {
            before.links()[key].insert(vlan)
        } else {
            set![vlan]
        },
    );
    match before.link_index(me, peer) {
        Some(k) => {
            assert(0 <= k < n && before.link(k) == key);
            lemma_link_index_at(after, k);
            assert(after.link(k) == key);
        },
        None => {
            lemma_link_index_at(after, n);
            assert(after.link(n) == key);
            assert(after.vlans(n).to_set() =~= set![vlan]) by {
                assert(after.vlans(n) == seq![vlan]);
                assert(seq![vlan].to_set() =~= set![vlan]) by {
                    assert(seq![vlan][0] == vlan);
                }
            }
        },
    }
    assert forall|q| #[trigger] after.links().contains_key(q) <==> expected.contains_key(q) by {
        if after.links().contains_key(q) {
            let j = after.link_index(q.0, q.1)->0;
            assert(0 <= j < after.connection@.len() && after.link(j) == (q.0, q.1));
            if j < n && q != key {
                assert(before.link(j) == (q.0, q.1));
                assert(before.link_index(q.0, q.1) is Some);
            }
        }
        if before.links().contains_key(q) {
            let j = before.link_index(q.0, q.1)->0;
            assert(0 <= j < n && before.link(j) == (q.0, q.1));
            assert(after.link(j) == (q.0, q.1));
        }
    }
    assert forall|q| #[trigger] after.links().contains_key(q) implies after.links()[q] == expected[q] by {
        if q != key {
            let j = before.link_index(q.0, q.1)->0;
            assert(0 <= j < n && before.link(j) == (q.0, q.1));
            lemma_link_index_at(before, j);
            lemma_link_index_at(after, j);
            assert(after.link(j) == before.link(j));
            assert(after.vlans(j) == before.vlans(j));
        }
    }
    assert(after.links() =~= expected);
}

/// Recording the same VLAN on the same link a second time changes nothing
/// more.
pub proof fn lemma_record_twice(
    a: Topo,
    b: Topo,
    c: Topo,
    me: (Seq<char>, (u32, Seq<char>, MacAddress, OperState)),
    peer: (Seq<char>, (u32, Seq<char>, MacAddress, OperState)),
    vlan: u16,
)
    requires
        a.wf(),
        b.wf(),
        c.wf(),
        Topo::recorded(a, b, me, peer, vlan),
        Topo::recorded(b, c, me, peer, vlan),
    ensures
        c.links() == b.links(),
{
    lemma_record_links(a, b, me, peer, vlan);
    lemma_record_links(b, c, me, peer, vlan);
    let key = (me, peer);
    assert(b.links().contains_key(key));
    assert(b.links()[key].contains(vlan));
    assert(b.links()[key].insert(vlan) =~= b.links()[key]);
    assert(c.links() =~= b.links());
}

/// The links that a run of reports is about, each with the VLANs that its
/// reports carried: the reports are taken in order, and one about no link
/// changes nothing.
pub open spec fn reported_links(
    host: Seq<char>,
    nics: Seq<Interface>,
    reports: Seq<(u32, Peer)>,
) -> Map<LinkEnds, Set<u16>>
    decreases reports.len(),
{
    if reports.len() == 0 {
        Map::empty()
    } else {
        let m = reported_links(host, nics, reports.drop_last());
        let r = reports.last();
        match report_link(host, nics, r.0, r.1) {
            None => m,
            Some(k) => m.insert(
                k,
                if m.contains_key(k) {
                    m[k].insert(r.1.vlan)
                } else {
                    set![r.1.vlan]
                },
            ),
        }
    }
}

/// `topos` are the maps of a run of upkeep: an empty map, then one map after
/// each report, each well formed.
pub open spec fn upkeep(
    topos: Seq<Topo>,
    host: Seq<char>,
    nics: Seq<Interface>,
    reports: Seq<(u32, Peer)>,
) -> bool {
    &&& topos.len() == reports.len() + 1
    &&& topos[0].connection@.len() == 0
    &&& forall|j: int| 0 <= j < topos.len() ==> (#[trigger] topos[j]).wf()
    &&& forall|j: int|
        0 <= j < reports.len() ==> Topo::updated(
            topos[j],
            topos[j + 1],
            host,
            nics,
            (#[trigger] reports[j]).0,
            reports[j].1,
        )
}

/// After a run of upkeep, the map holds the links of the reports, each with
/// the VLANs its reports carried.
proof fn lemma_upkeep_links(
    topos: Seq<Topo>,
    host: Seq<char>,
    nics: Seq<Interface>,
    reports: Seq<(u32, Peer)>,
)
    requires
        upkeep(topos, host, nics, reports),
    ensures
        topos.last().links() == reported_links(host, nics, reports),
    decreases reports.len(),
{
    let n = reports.len() as int;
    if n == 0 {
        let t = topos[0];
        assert(t.links() =~= Map::<LinkEnds, Set<u16>>::empty()) by {
            assert forall|k: LinkEnds| !t.links().contains_key(k) by {}
        }
    } else {
        let tp = topos.drop_last();
        let rp = reports.drop_last();
        assert forall|j: int| 0 <= j < tp.len() implies (#[trigger] tp[j]).wf() by {
            assert(tp[j] == topos[j]);
        }
        assert forall|j: int| 0 <= j < rp.len() implies Topo::updated(
            tp[j],
            tp[j + 1],
            host,
            nics,
            (#[trigger] rp[j]).0,
            rp[j].1,
        ) by {
            assert(rp[j] == reports[j]);
            assert(tp[j] == topos[j] && tp[j + 1] == topos[j + 1]);
        }
        lemma_upkeep_links(tp, host, nics, rp);
        assert(tp.last() == topos[n - 1]);
        let r = reports[n - 1];
        assert(reports.last() == r);
        assert(Topo::updated(topos[n - 1], topos[n], host, nics, r.0, r.1));
        assert(topos[n - 1].wf() && topos[n].wf());
        match report_link(host, nics, r.0, r.1) {
            None => {},
            Some(k) => {
                lemma_record_links(topos[n - 1], topos[n], k.0, k.1, r.1.vlan);
            },
        }
    }
}

/// Report `j` of `reports` is about link `k`.
pub open spec fn reports_about(
    host: Seq<char>,
    nics: Seq<Interface>,
    reports: Seq<(u32, Peer)>,
    k: LinkEnds,
    j: int,
) -> bool {
    0 <= j < reports.len() && report_link(host, nics, reports[j].0, reports[j].1) == Some(k)
}

/// What a run of reports gives for link `k`: it is in the map exactly when
/// one of the reports is about it, and its VLANs are those that its reports
/// carried.
proof fn lemma_reported_link(
    host: Seq<char>,
    nics: Seq<Interface>,
    reports: Seq<(u32, Peer)>,
    k: LinkEnds,
)
    ensures
        reported_links(host, nics, reports).contains_key(k) <==> exists|j: int|
            #[trigger] reports_about(host, nics, reports, k, j),
        reported_links(host, nics, reports).contains_key(k) ==> forall|v: u16|
            #[trigger] reported_links(host, nics, reports)[k].contains(v) <==> exists|j: int|
                #[trigger] reports_about(host, nics, reports, k, j) && reports[j].1.vlan == v,
    decreases reports.len(),
{
    let n = reports.len() as int;
    if n > 0 {
        let rp = reports.drop_last();
        lemma_reported_link(host, nics, rp, k);
        let m = reported_links(host, nics, rp);
        let all = reported_links(host, nics, reports);
        let r = reports[n - 1];
        assert(reports.last() == r);
        assert forall|j: int| 0 <= j < n - 1 implies #[trigger] reports_about(host, nics, rp, k, j)
            == reports_about(host, nics, reports, k, j) by {
            assert(rp[j] == reports[j]);
        }
        let here = report_link(host, nics, r.0, r.1) == Some(k);
        assert(here == reports_about(host, nics, reports, k, n - 1));
        if here {
            assert(all.contains_key(k));
            assert forall|v: u16| #[trigger] all[k].contains(v) <==> exists|j: int|
                #[trigger] reports_about(host, nics, reports, k, j) && reports[j].1.vlan == v by {
                if exists|j: int| #[trigger] reports_about(host, nics, reports, k, j) && reports[j].1.vlan == v {
                    let j = choose|j: int| #[trigger] reports_about(host, nics, reports, k, j) && reports[j].1.vlan == v;
                    if j < n - 1 {
                        assert(reports_about(host, nics, rp, k, j) && rp[j].1.vlan == v);
                    }
                }
                if all[k].contains(v) && v != r.1.vlan {
                    assert(m.contains_key(k) && m[k].contains(v));
                    let j = choose|j: int| #[trigger] reports_about(host, nics, rp, k, j) && rp[j].1.vlan == v;
                    assert(reports_about(host, nics, reports, k, j) && reports[j].1.vlan == v);
                }
            }
        } else {
            assert(all.contains_key(k) == m.contains_key(k));
            if m.contains_key(k) {
                assert(all[k] == m[k]);
            }
            if exists|j: int| #[trigger] reports_about(host, nics, reports, k, j) {
                let j = choose|j: int| #[trigger] reports_about(host, nics, reports, k, j);
                assert(j < n - 1);
                assert(reports_about(host, nics, rp, k, j));
            }
            if exists|j: int| #[trigger] reports_about(host, nics, rp, k, j) {
                let j = choose|j: int| #[trigger] reports_about(host, nics, rp, k, j);
                assert(reports_about(host, nics, reports, k, j));
            }
            if m.contains_key(k) {
                assert forall|v: u16| #[trigger] all[k].contains(v) <==> exists|j: int|
                    #[trigger] reports_about(host, nics, reports, k, j) && reports[j].1.vlan == v by {
                    if exists|j: int| #[trigger] reports_about(host, nics, reports, k, j) && reports[j].1.vlan == v {
                        let j = choose|j: int| #[trigger] reports_about(host, nics, reports, k, j) && reports[j].1.vlan == v;
                        assert(reports_about(host, nics, rp, k, j) && rp[j].1.vlan == v);
                    }
                    if m[k].contains(v) {
                        let j = choose|j: int| #[trigger] reports_about(host, nics, rp, k, j) && rp[j].1.vlan == v;
                        assert(reports_about(host, nics, reports, k, j) && reports[j].1.vlan == v);
                    }
                }
            }
        }
    }
}

/// Law of the map's upkeep: after a run of reports, one `update` each from
/// an empty map, the map lists exactly the links that the reports are
/// about, and the VLANs of each link are those that its reports carried,
/// listed in increasing order without repeats.
pub proof fn lemma_upkeep_collects_vlans(
    topos: Seq<Topo>,
    host: Seq<char>,
    nics: Seq<Interface>,
    reports: Seq<(u32, Peer)>,
)
    requires
        upkeep(topos, host, nics, reports),
    ensures
        forall|k: LinkEnds|
            #[trigger] topos.last().links().contains_key(k) <==> exists|j: int|
                #[trigger] reports_about(host, nics, reports, k, j),
        forall|k: LinkEnds, v: u16|
            topos.last().links().contains_key(k) ==> (#[trigger] topos.last().links()[k].contains(v)
                <==> exists|j: int| #[trigger] reports_about(host, nics, reports, k, j) && reports[j].1.vlan == v),
        forall|i: int|
            0 <= i < topos.last().connection@.len() ==> strictly_increasing(
                #[trigger] topos.last().vlans(i),
            ),
{
    lemma_upkeep_links(topos, host, nics, reports);
    assert forall|k: LinkEnds| #[trigger] topos.last().links().contains_key(k) <==> exists|j: int|
        #[trigger] reports_about(host, nics, reports, k, j) by {
        lemma_reported_link(host, nics, reports, k);
    }
    assert forall|k: LinkEnds, v: u16| topos.last().links().contains_key(k) implies (
    #[trigger] topos.last().links()[k].contains(v) <==> exists|j: int|
        #[trigger] reports_about(host, nics, reports, k, j) && reports[j].1.vlan == v) by {
        lemma_reported_link(host, nics, reports, k);
    }
    assert(topos.last() == topos[topos.len() - 1]);
    assert(topos[topos.len() - 1].wf());
}

/// How many times, from position `i` on, the next value is one more than
/// the one before it.
pub open spec fn run_len(v: Seq<u16>, i: int) -> nat
    decreases v.len() - i,
{
    if 0 <= i && i + 1 < v.len() && v[i + 1] == v[i] + 1 {
        1 + run_len(v, i + 1)
    } else {
        0
    }
}

/// A run that starts inside the list ends inside it.
pub proof fn lemma_run_len_bound(v: Seq<u16>, i: int)
    requires
        0 <= i < v.len(),
    ensures
        i + run_len(v, i) < v.len(),
    decreases v.len() - i,
{
    if i + 1 < v.len() && v[i + 1] == v[i] + 1 {
        lemma_run_len_bound(v, i + 1);
    }
}

/// The maximal runs of consecutive values of `v` from position `i` on, as
/// (first, last) pairs.
pub open spec fn vlan_runs(v: Seq<u16>, i: int) -> Seq<(u16, u16)>
    decreases v.len() - i,
{
    if 0 <= i < v.len() {
        proof {
            lemma_run_len_bound(v, i);
        }
        seq![(v[i], v[i + run_len(v, i)])] + vlan_runs(v, i + run_len(v, i) + 1)
    } else {
        Seq::empty()
    }
}

/// The text of a run: its value alone, or its first and last values joined
/// by a dash.
pub open spec fn run_text(r: (u16, u16)) -> Seq<char> {
    if r.0 == r.1 {
        decimal(r.0 as nat)
    } else {
        decimal(r.0 as nat) + seq!['-'] + decimal(r.1 as nat)
    }
}

/// The texts of runs, joined by commas.
pub open spec fn join_runs(rs: Seq<(u16, u16)>) -> Seq<char>
    decreases rs.len(),
{
    if rs.len() == 0 {
        Seq::empty()
    } else if rs.len() == 1 {
        run_text(rs[0])
    } else {
        join_runs(rs.drop_last()) + seq![','] + run_text(rs.last())
    }
}

/// The compact text of a VLAN list: its runs of consecutive VLANs, as
/// `a-b` or `a`, joined by commas (`1-3,5,7-8`).
pub open spec fn vlan_text(v: Seq<u16>) -> Seq<char> {
    join_runs(vlan_runs(v, 0))
}

/// The list can be scanned: a VLAN that is followed by another is not the
/// largest value, to which one cannot be added.
pub open spec fn vlans_scannable(v: Seq<u16>) -> bool {
    forall|i: int| 0 <= i < v.len() - 1 ==> #[trigger] v[i] < u16::MAX
}

proof fn lemma_run_len_at(v: Seq<u16>, start: int, i: int)
    requires
        0 <= start <= i < v.len(),
        forall|k: int| start <= k < i ==> #[trigger] v[k + 1] == v[k] + 1,
        !(i + 1 < v.len() && v[i + 1] == v[i] + 1),
    ensures
        run_len(v, start) == i - start,
    decreases i - start,
{
    if start < i {
        assert(v[start + 1] == v[start] + 1);
        lemma_run_len_at(v, start + 1, i);
    }
}

/// Renders the VLAN list in its compact text form: runs of consecutive
/// VLANs as `a-b` or `a`, joined by commas.
pub fn show_vlan(vlans: &Vec<u16>) -> (s: String)
    requires
        vlans_scannable(vlans@),
    ensures
        s@ == vlan_text(vlans@),
{
    let ghost v = vlans@;
    let len = vlans.len();
    if len == 0 {
        return String::new();
    }
    let mut vlan_str = String::new();
    let mut start: usize = 0;
    let ghost mut done: Seq<(u16, u16)> = Seq::empty();
    let mut i: usize = 0;
    while i < len
        invariant
            v == vlans@,
            len == v.len(),
            vlans_scannable(v),
            start <= i <= len,
            start < len || start == i,
            i == len ==> start == len,
            vlan_runs(v, 0) == done + vlan_runs(v, start as int),
            vlan_str@ == join_runs(done),
            forall|k: int| start <= k < i ==> #[trigger] v[k + 1] == v[k] + 1,
        decreases len - i,
    {
        let end = vlans[i];
        let range = if i + 1 < len {
            vlans[i + 1] != end + 1
        } else {
            true
        };
        if range {
            proof {
                lemma_run_len_at(v, start as int, i as int);
                assert(vlan_runs(v, start as int) == seq![(v[start as int], v[i as int])] + vlan_runs(
                    v,
                    i + 1,
                ));
                reveal_strlit(",");
                reveal_strlit("-");
            }
            let ghost before = done;
            let first = vlans[start];
            if vlan_str.as_str().is_empty() {
                assert(before.len() == 0) by {
                    if before.len() > 0 {
                        assert(join_runs(before).len() > 0) by {
                            if before.len() == 1 {
                                assert(decimal(before[0].0 as nat).len() > 0);
                            }
                        }
                    }
                }
            } else {
                vlan_str.append(",");
            }
            if first == end {
                push_decimal(&mut vlan_str, end as u64);
            } else {
                push_decimal(&mut vlan_str, first as u64);
                vlan_str.append("-");
                push_decimal(&mut vlan_str, end as u64);
            }
            proof {
                done = before.push((first, end));
                assert(done.drop_last() =~= before);
                assert(vlan_str@ =~= join_runs(done));
                assert(vlan_runs(v, 0) =~= done + vlan_runs(v, i + 1));
            }
            start = i + 1;
        }
        i = i + 1;
    }
    proof {
        assert(vlan_runs(v, start as int) =~= Seq::<(u16, u16)>::empty());
        assert(done =~= vlan_runs(v, 0));
    }
    vlan_str
}

/// The text of link `i` of a map: both ends and the VLANs seen on it.
pub open spec fn link_text(t: Topo, i: int) -> Seq<char> {
    node_text(t.link(i).0) + " <-> "@ + node_text(t.link(i).1) + " VLAN: "@ + vlan_text(t.vlans(i))
}

/// The text of the first `n` links of a map, one after the other.
pub open spec fn topo_text(t: Topo, n: int) -> Seq<char>
    decreases n,
{
    if n <= 0 {
        Seq::empty()
    } else {
        topo_text(t, n - 1) + link_text(t, n - 1)
    }
}

/// A strictly increasing list can be scanned.
proof fn lemma_increasing_scannable(v: Seq<u16>)
    requires
        strictly_increasing(v),
    ensures
        vlans_scannable(v),
{
    assert forall|i: int| 0 <= i < v.len() - 1 implies #[trigger] v[i] < u16::MAX by {
        assert(v[i] < v[i + 1]);
    }
}

impl Topo {
    /// `after` is `before` after a peer's report on interface `ifindex`:
    /// the peer's VLAN recorded on the link that the report is about, or
    /// nothing changed when the report is about no link.
    pub open spec fn updated(
        before: Topo,
        after: Topo,
        host: Seq<char>,
        nics: Seq<Interface>,
        ifindex: u32,
        peer: Peer,
    ) -> bool {
        match report_link(host, nics, ifindex, peer) {
            None => after == before,
            Some(k) => Topo::recorded(before, after, k.0, k.1, peer.vlan),
        }
    }

    /// One step of the map's upkeep: a peer reported itself on interface
    /// `ifindex`. If one of `nics` has that index, the link between this
    /// host's interface (the first such) and the peer's is recorded on the
    /// peer's VLAN, and `true` is returned; else the map is left as it is.
    /// The peer's end is known by its host, interface name and MAC address;
    /// its index is 0 and its state up.
    pub fn update(&mut self, host: &String, nics: &Vec<Interface>, ifindex: u32, peer: Peer) -> (updated: bool)
        requires
            old(self).wf(),
        ensures
            final(self).wf(),
            updated == report_link(host@, nics@, ifindex, peer) is Some,
            Topo::updated(*old(self), *final(self), host@, nics@, ifindex, peer),
    {
        match find_interface(nics, ifindex) {
            None => {
                assert(first_interface(nics@, ifindex) is None);
                proof {
                    reveal(report_link);
                }
                false
            },
            Some(i) => {
                proof {
                    lemma_first_interface_at(nics@, ifindex, i as int);
                    reveal(report_link);
                }
                let me = Node { host: host.clone(), nic: nics[i].clone() };
                let p = Node {
                    host: peer.host,
                    nic: Interface { index: 0, name: peer.nic, mac: peer.mac, state: OperState::Up },
                };
                self.record(me, p, peer.vlan);
                true
            },
        }
    }

    /// The text of link `i`: both ends and its VLANs.
    fn link_string(&self, i: usize) -> (s: String)
        requires
            self.wf(),
            i < self.connection@.len(),
        ensures
            s@ == link_text(*self, i as int),
    {
        let entry = &self.connection[i];
        assert(*entry == self.connection@[i as int]);
        proof {
            assert(strictly_increasing(self.vlans(i as int)));
            lemma_increasing_scannable(self.vlans(i as int));
        }
        let me = entry.0.0.to_string();
        let peer = entry.0.1.to_string();
        let vlans = show_vlan(&entry.1);
        let mut s = String::new();
        s.append(me.as_str());
        s.append(" <-> ");
        s.append(peer.as_str());
        s.append(" VLAN: ");
        s.append(vlans.as_str());
        assert(s@ =~= link_text(*self, i as int));
        s
    }

    /// The text of the map: for each link, both ends and its VLANs, as
    /// `me <-> peer VLAN: 1-3,5`, one after the other.
    pub fn to_string(&self) -> (s: String)
        requires
            self.wf(),
        ensures
            s@ == topo_text(*self, self.connection@.len() as int),
    {
        let mut s = String::new();
        let mut i: usize = 0;
        while i < self.connection.len()
            invariant
                self.wf(),
                i <= self.connection@.len(),
                s@ == topo_text(*self, i as int),
            decreases self.connection@.len() - i,
        {
            let t = self.link_string(i);
            s.append(t.as_str());
            assert(s@ =~= topo_text(*self, i as int) + link_text(*self, i as int));
            i = i + 1;
        }
        s
    }
}

/// The index of the first `c` in `s`, if any.
pub open spec fn first_index_of(s: Seq<char>, c: char) -> Option<int> {
    if exists|i: int| 0 <= i < s.len() && s[i] == c {
        Some(choose|i: int| 0 <= i < s.len() && s[i] == c && forall|j: int| 0 <= j < i ==> s[j] != c)
    } else {
        None
    }
}

/// What a VLAN range text reads as: `start-end` split at the first dash,
/// each side a decimal `u16` (an optional `+` allowed), the end not below
/// the start; else the message of what is wrong.
pub open spec fn vlan_range_of(s: Seq<char>) -> Result<(u16, u16), Seq<char>> {
    match first_index_of(s, '-') {
        None => Err("Vlan range format error. Should be like `2-4`"@),
        Some(i) => {
            let start = s.take(i);
            let end = s.skip(i + 1);
            match parse_unsigned(start, 10, 65535) {
                None => Err("`"@ + start + "` is not a number"@),
                Some(a) => match parse_unsigned(end, 10, 65535) {
                    None => Err("`"@ + end + "` is not a number"@),
                    Some(b) => if b < a {
                        Err(decimal(b) + " is smaller than "@ + decimal(a))
                    } else {
                        Ok((a as u16, b as u16))
                    },
                },
            }
        },
    }
}

/// Reads a VLAN range given as `start-end`.
pub fn vlan_range(s: &str) -> (r: Result<(u16, u16), String>)
    ensures
        match r {
            Ok(p) => vlan_range_of(s@) == Ok::<(u16, u16), Seq<char>>(p),
            Err(msg) => vlan_range_of(s@) == Err::<(u16, u16), Seq<char>>(msg@),
        },
{
    let chars = chars_of(s);
    let mut i: usize = 0;
    while i < chars.len() && chars[i] != '-'
        invariant
            chars@ == s@,
            i <= chars@.len(),
            forall|j: int| 0 <= j < i ==> chars@[j] != '-',
        decreases chars@.len() - i,
    {
        i = i + 1;
    }
    if i == chars.len() {
        return Err(String::from_str("Vlan range format error. Should be like `2-4`"));
    }
    assert(first_index_of(s@, '-') == Some(i as int)) by {
        let k = choose|k: int| 0 <= k < s@.len() && s@[k] == '-' && forall|j: int| 0 <= j < k ==> s@[j] != '-';
        if k < i {
        } else if k > i {
            assert(s@[i as int] == '-');
        }
    }
    let n = chars.len();
    assert(chars@.subrange(0, i as int) =~= s@.take(i as int));
    assert(chars@.subrange(i + 1, n as int) =~= s@.skip(i + 1));
    let start = match parse_unsigned_in(&chars, 0, i, 10, 65535) {
        Some(v) => v,
        None => {
            let mut msg = String::from_str("`");
            msg.append(s.substring_char(0, i));
            msg.append("` is not a number");
            return Err(msg);
        },
    };
    let end = match parse_unsigned_in(&chars, i + 1, n, 10, 65535) {
        Some(v) => v,
        None => {
            let mut msg = String::from_str("`");
            msg.append(s.substring_char(i + 1, n));
            msg.append("` is not a number");
            return Err(msg);
        },
    };
    if end < start {
        let mut msg = String::new();
        push_decimal(&mut msg, end);
        msg.append(" is smaller than ");
        push_decimal(&mut msg, start);
        return Err(msg);
    }
    Ok((start as u16, end as u16))
}

/// `s` without its trailing NUL characters.
pub open spec fn trim_end_nul(s: Seq<char>) -> Seq<char>
    decreases s.len(),
{
    if s.len() > 0 && s.last() == '\0' {
        trim_end_nul(s.drop_last())
    } else {
        s
    }
}

/// The host name held in the node-name field of `uname`: the field decoded
/// as UTF-8 (invalid sequences replaced), without its trailing NULs.
pub fn hostname_from_nodename(nodename: &[u8]) -> (name: String)
    ensures
        name@ == trim_end_nul(utf8_lossy(nodename@)),
{
    let text = lossy_string(nodename);
    let t = text.as_str();
    let mut n = t.unicode_len();
    assert(t@.take(n as int) =~= t@);
    while n > 0 && t.get_char(n - 1) == '\0'
        invariant
            n <= t@.len(),
            t@ == utf8_lossy(nodename@),
            trim_end_nul(t@) == trim_end_nul(t@.take(n as int)),
        decreases n,
    {
        assert(t@.take(n as int).drop_last() =~= t@.take(n - 1));
        n = n - 1;
    }
    let r = t.substring_char(0, n);
    assert(r@ == t@.take(n as int));
    r.to_owned()
}

/// The VLAN ranges to probe: those asked for, or `1-4094` when none is,
/// then the untagged range `0-0`, which is always probed.
pub fn probe_ranges(requested: Vec<(u16, u16)>) -> (r: Vec<(u16, u16)>)
    ensures
        r@ == (if requested@.len() == 0 {
            seq![(1u16, 4094u16)]
        } else {
            requested@
        }).push((0u16, 0u16)),
{
    let mut r = if requested.len() == 0 {
        let mut d = Vec::new();
        d.push((1u16, 4094u16));
        d
    } else {
        requested
    };
    r.push((0, 0));
    r
}

/// The interface is asked for: its name is among `names` when names are
/// given.
pub open spec fn named(n: Interface, names: Option<Seq<Seq<char>>>) -> bool {
    names matches Some(ns) ==> ns.contains(n.name@)
}

/// The interface is kept for probing: it is asked for, and it is up.
pub open spec fn probed(n: Interface, names: Option<Seq<Seq<char>>>) -> bool {
    &&& named(n, names)
    &&& n.state == OperState::Up
}

/// Whether `name` is one of `names`.
fn has_name(names: &Vec<String>, name: &String) -> (b: bool)
    ensures
        b == names@.map_values(|x: String| x@).contains(name@),
{
    let ghost views = names@.map_values(|x: String| x@);
    let mut i: usize = 0;
    while i < names.len()
        invariant
            i <= names@.len(),
            views == names@.map_values(|x: String| x@),
            forall|j: int| 0 <= j < i ==> views[j] != name@,
        decreases names@.len() - i,
    {
        if names[i] == *name {
            assert(views[i as int] == name@);
            return true;
        }
        i = i + 1;
    }
    false
}

/// The names given, as texts.
pub open spec fn names_view(names: Option<Vec<String>>) -> Option<Seq<Seq<char>>> {
    match names {
        Some(ns) => Some(ns@.map_values(|x: String| x@)),
        None => None,
    }
}

/// The interfaces to probe: those named in `names` when names are given,
/// and of those the ones that are up, in their order.
pub fn select_interfaces(nics: Vec<Interface>, names: &Option<Vec<String>>) -> (r: Vec<Interface>)
    ensures
        r@ == nics@.filter(|n: Interface| probed(n, names_view(*names))),
{
    let ghost keep = |n: Interface| probed(n, names_view(*names));
    let ghost all = nics@;
    let total = nics.len();
    let mut rest = nics;
    let mut r: Vec<Interface> = Vec::new();
    let mut k: usize = 0;
    while rest.len() > 0
        invariant
            total == all.len(),
            k + rest@.len() == all.len(),
            rest@ == all.skip(k as int),
            r@ == all.take(k as int).filter(keep),
            keep == (|n: Interface| probed(n, names_view(*names))),
        decreases rest@.len(),
    {
        let n = rest.remove(0);
        assert(n == all[k as int]);
        let named = match names {
            Some(ns) => has_name(ns, &n.name),
            None => true,
        };
        proof {
            reveal_with_fuel(Seq::filter, 1);
            assert(all.take(k + 1).drop_last() =~= all.take(k as int));
            assert(rest@ =~= all.skip(k + 1));
        }
        if named && n.state == OperState::Up {
            r.push(n);
        }
        k = k + 1;
    }
    assert(all.take(k as int) =~= all);
    r
}

/// The names of the interfaces that are asked for but not up, in their
/// order: those that probing leaves out for their state.
pub fn down_interfaces(nics: &Vec<Interface>, names: &Option<Vec<String>>) -> (r: Vec<String>)
    ensures
        r@.map_values(|x: String| x@) == nics@.filter(
            |n: Interface| named(n, names_view(*names)) && n.state != OperState::Up,
        ).map_values(|n: Interface| n.name@),
{
    let ghost keep = |n: Interface| named(n, names_view(*names)) && n.state != OperState::Up;
    let mut r: Vec<String> = Vec::new();
    let mut k: usize = 0;
    while k < nics.len()
        invariant
            k <= nics@.len(),
            r@.map_values(|x: String| x@) == nics@.take(k as int).filter(keep).map_values(
                |n: Interface| n.name@,
            ),
            keep == (|n: Interface| named(n, names_view(*names)) && n.state != OperState::Up),
        decreases nics@.len() - k,
    {
        let n = &nics[k];
        let asked = match names {
            Some(ns) => has_name(ns, &n.name),
            None => true,
        };
        let ghost before = r@;
        proof {
            reveal_with_fuel(Seq::filter, 1);
            assert(nics@.take(k + 1).drop_last() =~= nics@.take(k as int));
        }
        if asked && n.state != OperState::Up {
            r.push(n.name.clone());
            assert(r@.map_values(|x: String| x@) =~= before.map_values(|x: String| x@).push(
                n.name@,
            ));
        }
        k = k + 1;
    }
    assert(nics@.take(k as int) =~= nics@);
    r
}

/// The components of a path after field `i` of its `/`-separated fields:
/// the fields in order, with empty ones and `.` dropped.
pub open spec fn kept_components(fs: Seq<Seq<char>>, i: int) -> Seq<Seq<char>>
    decreases fs.len() - i,
{
    if 0 <= i < fs.len() {
        if fs[i].len() == 0 || fs[i] == seq!['.'] {
            kept_components(fs, i + 1)
        } else {
            seq![fs[i]] + kept_components(fs, i + 1)
        }
    } else {
        Seq::empty()
    }
}

/// The components of a path, as `Path::components` documents them: a
/// leading `/` is the root, a leading `.` stays, and otherwise repeated
/// separators, `.` and a trailing separator are dropped.
pub open spec fn path_components(s: Seq<char>) -> Seq<Seq<char>> {
    let fs = split_fields(s, '/');
    if s.len() > 0 && s[0] == '/' {
        seq![seq!['/']] + kept_components(fs, 1)
    } else if fs[0] == seq!['.'] {
        seq![seq!['.']] + kept_components(fs, 1)
    } else {
        kept_components(fs, 0)
    }
}

/// The components of `../../devices/virtual`.
pub open spec fn virtual_devices() -> Seq<Seq<char>> {
    seq![
        seq!['.', '.'],
        seq!['.', '.'],
        seq!['d', 'e', 'v', 'i', 'c', 'e', 's'],
        seq!['v', 'i', 'r', 't', 'u', 'a', 'l'],
    ]
}

/// A split always gives at least one field.
proof fn lemma_split_nonempty(s: Seq<char>, sep: char)
    ensures
        split_fields(s, sep).len() >= 1,
    decreases s.len(),
{
    if s.len() > 0 {
        lemma_split_nonempty(s.drop_last(), sep);
    }
}

/// Whether the characters of `s` from `lo` to `hi` are exactly `word`.
fn span_is(s: &Vec<char>, lo: usize, hi: usize, word: &Vec<char>) -> (b: bool)
    requires
        lo <= hi <= s@.len(),
    ensures
        b == (s@.subrange(lo as int, hi as int) == word@),
{
    if hi - lo != word.len() {
        return false;
    }
    let mut i: usize = 0;
    while i < word.len()
        invariant
            lo <= hi <= s@.len(),
            hi - lo == word@.len(),
            i <= word@.len(),
            forall|k: int| 0 <= k < i ==> #[trigger] s@[lo + k] == word@[k],
        decreases word@.len() - i,
    {
        if s[lo + i] != word[i] {
            assert(s@.subrange(lo as int, hi as int)[i as int] == s@[lo + i]);
            return false;
        }
        i = i + 1;
    }
    assert(s@.subrange(lo as int, hi as int) =~= word@) by {
        assert forall|k: int| 0 <= k < hi - lo implies s@.subrange(lo as int, hi as int)[k] == word@[k] by {
            assert(s@.subrange(lo as int, hi as int)[k] == s@[lo + k]);
        }
    }
    true
}

/// Whether the target of an interface's sysfs link is a virtual device:
/// its path starts, component by component, with `../../devices/virtual`.
pub fn is_virtual_device(link: &str) -> (b: bool)
    ensures
        b == (path_components(link@).len() >= 4 && path_components(link@).take(4)
            == virtual_devices()),
{
    let chars = chars_of(link);
    let n = chars.len();
    assert(chars@.subrange(0, n as int) =~= link@);
    let spans = split_spans(&chars, 0, n, '/');
    let ghost fs = split_fields(link@, '/');
    proof {
        lemma_split_nonempty(link@, '/');
    }
    assert(span_fields(chars@, spans@) == fs);
    let dot: Vec<char> = vec!['.'];
    assert(dot@ =~= seq!['.']);
    if n > 0 && chars[0] == '/' {
        assert(path_components(link@)[0] == seq!['/']);
        assert(seq!['/'] != virtual_devices()[0]) by {
            assert(seq!['/'].len() != seq!['.', '.'].len());
        }
        assert(path_components(link@).len() >= 4 ==> path_components(link@).take(4)[0] != virtual_devices()[0]);
        return false;
    }
    let (a0, b0) = spans[0];
    assert(fs[0] == chars@.subrange(a0 as int, b0 as int));
    if span_is(&chars, a0, b0, &dot) {
        assert(path_components(link@)[0] == seq!['.']);
        assert(seq!['.'] != virtual_devices()[0]) by {
            assert(seq!['.'].len() != seq!['.', '.'].len());
        }
        assert(path_components(link@).len() >= 4 ==> path_components(link@).take(4)[0] != virtual_devices()[0]);
        return false;
    }
    let words: Vec<Vec<char>> = vec![
        vec!['.', '.'],
        vec!['.', '.'],
        vec!['d', 'e', 'v', 'i', 'c', 'e', 's'],
        vec!['v', 'i', 'r', 't', 'u', 'a', 'l'],
    ];
    let ghost want = virtual_devices();
    assert(words@.len() == 4);
    assert(words@[0]@ =~= want[0]);
    assert(words@[1]@ =~= want[1]);
    assert(words@[2]@ =~= want[2]);
    assert(words@[3]@ =~= want[3]);
    assert(path_components(link@) == kept_components(fs, 0));
    let mut i: usize = 0;
    let mut k: usize = 0;
    assert(kept_components(fs, 0) =~= want.take(0) + kept_components(fs, 0));
    while i < spans.len()
        invariant
            i <= spans@.len(),
            k < 4,
            words@.len() == 4,
            forall|j: int| 0 <= j < 4 ==> (#[trigger] words@[j])@ == want[j],
            want == virtual_devices(),
            path_components(link@) == kept_components(fs, 0),
            dot@ == seq!['.'],
            fs == span_fields(chars@, spans@),
            fs.len() == spans@.len(),
            forall|j: int| 0 <= j < spans@.len() ==> (#[trigger] spans@[j]).0 <= spans@[j].1 <= chars@.len(),
            kept_components(fs, 0) == want.take(k as int) + kept_components(fs, i as int),
        decreases spans@.len() - i,
    {
        let (a, b) = spans[i];
        assert(fs[i as int] == chars@.subrange(a as int, b as int));
        let dropped = a == b || span_is(&chars, a, b, &dot);
        if dropped {
            assert(kept_components(fs, i as int) == kept_components(fs, i + 1));
        } else {
            assert(kept_components(fs, i as int) == seq![fs[i as int]] + kept_components(fs, i + 1));
            if !span_is(&chars, a, b, &words[k]) {
                proof {
                    let c = kept_components(fs, 0);
                    assert(c[k as int] == fs[i as int]);
                    if c.len() >= 4 {
                        assert(c.take(4)[k as int] != want[k as int]);
                    }
                }
                return false;
            }
            proof {
                assert(want.take(k as int) + (seq![fs[i as int]] + kept_components(fs, i + 1))
                    =~= want.take(k + 1) + kept_components(fs, i + 1));
            }
            k = k + 1;
            if k == 4 {
                proof {
                    let c = kept_components(fs, 0);
                    assert(c.take(4) =~= want);
                }
                return true;
            }
        }
        i = i + 1;
    }
    assert(kept_components(fs, i as int) =~= Seq::<Seq<char>>::empty());
    assert(kept_components(fs, 0).len() == k);
    false
}

/// What the map's display does once a report has been taken in.
#[derive(PartialEq, Eq, Structural, Debug, Clone, Copy)]
pub enum RedrawStep {
    /// More reports wait: take them in first.
    Wait,
    /// No report waits: pause, then look again.
    Pause,
    /// No report came during the pause: draw the map.
    Draw,
}

/// The display is drawn only once reports stop coming: with `pending`
/// reports waiting it waits for them; with none, it pauses, and after the
/// pause (`paused`) it draws if still none waits.
pub fn redraw_step(pending: usize, paused: bool) -> (s: RedrawStep)
    ensures
        pending != 0 ==> s == RedrawStep::Wait,
        pending == 0 && !paused ==> s == RedrawStep::Pause,
        pending == 0 && paused ==> s == RedrawStep::Draw,
{
    if pending != 0 {
        RedrawStep::Wait
    } else if paused {
        RedrawStep::Draw
    } else {
        RedrawStep::Pause
    }
}

/// Two hexadecimal digits of a byte read back as the byte.
proof fn lemma_hex2_parses(x: u8)
    ensures
        parse_unsigned(hex2(x), 16, 255) == Some(x as nat),
        forall|j: int| 0 <= j < 2 ==> #[trigger] hex2(x)[j] != ':',
        !is_white_space(hex2(x)[0]),
        !is_white_space(hex2(x)[1]),
{
    let h = hex2(x);
    lemma_hex_char_value((x / 16) as nat);
    lemma_hex_char_value((x % 16) as nat);
    assert(unsigned_digits(h) == h);
    assert(h.drop_last() =~= seq![h[0]]);
    assert(seq![h[0]].drop_last() =~= Seq::<char>::empty());
    assert(digits_value(Seq::<char>::empty(), 16) == 0);
    assert(digits_value(seq![h[0]], 16) == crate::text::digit_value(h[0]));
    assert(digits_value(h, 16) == digits_value(h.drop_last(), 16) * 16 + crate::text::digit_value(h.last()));
    assert forall|j: int| 0 <= j < h.len() implies is_digit_in(#[trigger] h[j], 16) by {}
}

/// Round trip: the text of a MAC address reads back as that address. It
/// has six fields, and each is the hexadecimal byte it was made of.
pub proof fn lemma_mac_text_reads_back(m: MacAddress)
    ensures
        mac_fields(mac_text(m.bytes())).len() == 6,
        mac_text_readable(mac_text(m.bytes())),
        forall|i: int|
            0 <= i < 6 ==> parse_unsigned(#[trigger] mac_fields(mac_text(m.bytes()))[i], 16, 255)
                == Some(m.bytes()[i] as nat),
{
    let b = m.bytes();
    let s = mac_text(b);
    lemma_hex2_parses(b[0]);
    lemma_hex2_parses(b[1]);
    lemma_hex2_parses(b[2]);
    lemma_hex2_parses(b[3]);
    lemma_hex2_parses(b[4]);
    lemma_hex2_parses(b[5]);
    assert(s[0] == hex2(b[0])[0]);
    assert(s.last() == hex2(b[5])[1]);
    assert(trim_start_ws(s) == s);
    assert(trim_end_ws(s) == s);
    let p1 = hex2(b[0]);
    let p2 = p1 + seq![':'] + hex2(b[1]);
    let p3 = p2 + seq![':'] + hex2(b[2]);
    let p4 = p3 + seq![':'] + hex2(b[3]);
    let p5 = p4 + seq![':'] + hex2(b[4]);
    let p6 = p5 + seq![':'] + hex2(b[5]);
    assert(p6 == s);
    lemma_split_no_sep(p1, ':');
    lemma_split_append_field(p1, hex2(b[1]), ':');
    lemma_split_append_field(p2, hex2(b[2]), ':');
    lemma_split_append_field(p3, hex2(b[3]), ':');
    lemma_split_append_field(p4, hex2(b[4]), ':');
    lemma_split_append_field(p5, hex2(b[5]), ':');
    let fields = mac_fields(s);
    assert(fields =~= seq![hex2(b[0]), hex2(b[1]), hex2(b[2]), hex2(b[3]), hex2(b[4]), hex2(b[5])]);
}

/// Round trip: a VLAN range written as `start-end` reads back as that
/// range.
pub proof fn lemma_vlan_range_reads_back(a: u16, b: u16)
    requires
        a <= b,
    ensures
        vlan_range_of(decimal(a as nat) + "-"@ + decimal(b as nat)) == Ok::<(u16, u16), Seq<char>>((a, b)),
{
    reveal_strlit("-");
    let da = decimal(a as nat);
    let db = decimal(b as nat);
    let s = da + "-"@ + db;
    lemma_decimal_only_digits(a as nat);
    lemma_decimal_parses(a as nat, 65535);
    lemma_decimal_parses(b as nat, 65535);
    assert(s[da.len() as int] == '-');
    assert forall|j: int| 0 <= j < da.len() implies s[j] != '-' by {
        assert(s[j] == da[j]);
    }
    assert(first_index_of(s, '-') == Some(da.len() as int)) by {
        let k = choose|k: int| 0 <= k < s.len() && s[k] == '-' && forall|j: int| 0 <= j < k ==> s[j] != '-';
        if k < da.len() {
            assert(s[k] == da[k]);
        } else if k > da.len() {
        }
    }
    assert(s.take(da.len() as int) =~= da);
    assert(s.skip(da.len() as int + 1) =~= db);
}

/// The VLANs from `a` to `b`, in order.
pub open spec fn vlan_span(a: u16, b: u16) -> Seq<u16> {
    Seq::new((b - a + 1) as nat, |k: int| (a + k) as u16)
}

/// The VLANs that a list of runs stands for, in order.
pub open spec fn expand_runs(rs: Seq<(u16, u16)>) -> Seq<u16>
    decreases rs.len(),
{
    if rs.len() == 0 {
        Seq::empty()
    } else {
        vlan_span(rs[0].0, rs[0].1) + expand_runs(rs.drop_first())
    }
}

/// Within a run, each value is the first plus its distance to it.
proof fn lemma_run_values(v: Seq<u16>, i: int)
    requires
        0 <= i < v.len(),
    ensures
        forall|k: int| 0 <= k <= run_len(v, i) ==> #[trigger] v[i + k] == v[i] + k,
    decreases v.len() - i,
{
    if i + 1 < v.len() && v[i + 1] == v[i] + 1 {
        lemma_run_values(v, i + 1);
        assert forall|k: int| 0 <= k <= run_len(v, i) implies #[trigger] v[i + k] == v[i] + k by {
            if k > 0 {
                assert(v[(i + 1) + (k - 1)] == v[i + 1] + (k - 1));
            }
        }
    }
}

proof fn lemma_expand_runs_from(v: Seq<u16>, i: int)
    requires
        0 <= i <= v.len(),
    ensures
        expand_runs(vlan_runs(v, i)) == v.skip(i),
    decreases v.len() - i,
{
    if i < v.len() {
        lemma_run_len_bound(v, i);
        let j = i + run_len(v, i);
        lemma_run_values(v, i);
        lemma_expand_runs_from(v, j + 1);
        let rs = vlan_runs(v, i);
        assert(rs.drop_first() =~= vlan_runs(v, j + 1));
        assert(vlan_span(v[i], v[j]) =~= v.subrange(i, j + 1)) by {
            assert forall|k: int| 0 <= k < j + 1 - i implies #[trigger] vlan_span(v[i], v[j])[k] == v.subrange(i, j + 1)[k] by {
                assert(v[i + k] == v[i] + k);
            }
        }
        assert(v.skip(i) =~= v.subrange(i, j + 1) + v.skip(j + 1));
    } else {
        assert(v.skip(i) =~= Seq::<u16>::empty());
    }
}

/// The compact VLAN text loses nothing: the runs it shows, taken back
/// apart, are the listed VLANs, in order.
pub proof fn lemma_vlan_runs_lossless(v: Seq<u16>)
    ensures
        expand_runs(vlan_runs(v, 0)) == v,
{
    lemma_expand_runs_from(v, 0);
    assert(v.skip(0) =~= v);
}

/// Where the run from `i` ends, the value after it does not follow on.
proof fn lemma_run_end(v: Seq<u16>, i: int)
    requires
        0 <= i < v.len(),
    ensures
        i + run_len(v, i) + 1 < v.len() ==> v[i + run_len(v, i) + 1] != v[i + run_len(v, i)] + 1,
    decreases v.len() - i,
{
    if i + 1 < v.len() && v[i + 1] == v[i] + 1 {
        lemma_run_end(v, i + 1);
    }
}

/// The runs from `i` on go upwards, and each is maximal: the run after it
/// does not start at the value after its last one.
proof fn lemma_runs_shape_from(v: Seq<u16>, i: int)
    requires
        0 <= i <= v.len(),
    ensures
        forall|k: int| 0 <= k < vlan_runs(v, i).len() ==> (#[trigger] vlan_runs(v, i)[k]).0 <= vlan_runs(v, i)[k].1,
        forall|k: int|
            0 <= k < vlan_runs(v, i).len() - 1 ==> (#[trigger] vlan_runs(v, i)[k]).1 + 1 != vlan_runs(v, i)[k + 1].0,
        strictly_increasing(v) ==> forall|k: int|
            0 <= k < vlan_runs(v, i).len() - 1 ==> (#[trigger] vlan_runs(v, i)[k]).1 + 1 < vlan_runs(v, i)[k + 1].0,
    decreases v.len() - i,
{
    if i < v.len() {
        lemma_run_len_bound(v, i);
        let j = i + run_len(v, i);
        lemma_run_values(v, i);
        lemma_run_end(v, i);
        lemma_runs_shape_from(v, j + 1);
        let rs = vlan_runs(v, i);
        let rest = vlan_runs(v, j + 1);
        assert(rs == seq![(v[i], v[j])] + rest);
        assert(v[i + run_len(v, i)] == v[i] + run_len(v, i));
        if rest.len() > 0 {
            assert(j + 1 < v.len());
            lemma_run_len_bound(v, j + 1);
            assert(rest[0].0 == v[j + 1]);
        }
        assert forall|k: int| 0 <= k < rs.len() implies (#[trigger] rs[k]).0 <= rs[k].1 by {
            if k > 0 {
                assert(rs[k] == rest[k - 1]);
            }
        }
        assert forall|k: int| 0 <= k < rs.len() - 1 implies (#[trigger] rs[k]).1 + 1 != rs[k + 1].0 by {
            if k > 0 {
                assert(rs[k] == rest[k - 1]);
                assert(rs[k + 1] == rest[(k - 1) + 1]);
            } else {
                assert(rs[1] == rest[0]);
            }
        }
        if strictly_increasing(v) {
            assert forall|k: int| 0 <= k < rs.len() - 1 implies (#[trigger] rs[k]).1 + 1 < rs[k + 1].0 by {
                if k > 0 {
                    assert(rs[k] == rest[k - 1]);
                    assert(rs[k + 1] == rest[(k - 1) + 1]);
                } else {
                    assert(rs[1] == rest[0]);
                    assert(v[j] < v[j + 1]);
                }
            }
        }
    }
}

/// The runs of the compact VLAN text are maximal: each goes upwards, and
/// the value after a run never follows on from its last one, so no two
/// neighbouring items could be listed as one. For a strictly increasing
/// list, as the map of links keeps, each run starts above the one before it
/// plus one.
pub proof fn lemma_vlan_runs_maximal(v: Seq<u16>)
    ensures
        forall|k: int| 0 <= k < vlan_runs(v, 0).len() ==> (#[trigger] vlan_runs(v, 0)[k]).0 <= vlan_runs(v, 0)[k].1,
        forall|k: int|
            0 <= k < vlan_runs(v, 0).len() - 1 ==> (#[trigger] vlan_runs(v, 0)[k]).1 + 1 != vlan_runs(v, 0)[k + 1].0,
        strictly_increasing(v) ==> forall|k: int|
            0 <= k < vlan_runs(v, 0).len() - 1 ==> (#[trigger] vlan_runs(v, 0)[k]).1 + 1 < vlan_runs(v, 0)[k + 1].0,
{
    lemma_runs_shape_from(v, 0);
}

/// The VLANs that one comma-separated item of a VLAN text stands for: `a-b`
/// for `a` to `b`, a lone number for itself.
pub open spec fn item_vlans(f: Seq<char>) -> Seq<u16> {
    match vlan_range_of(f) {
        Ok((a, b)) => vlan_span(a, b),
        Err(_) => match parse_unsigned(f, 10, 65535) {
            Some(n) => seq![n as u16],
            None => Seq::empty(),
        },
    }
}

/// The VLANs that a list of items stands for, in order.
pub open spec fn expand_items(fs: Seq<Seq<char>>) -> Seq<u16>
    decreases fs.len(),
{
    if fs.len() == 0 {
        Seq::empty()
    } else {
        expand_items(fs.drop_last()) + item_vlans(fs.last())
    }
}

/// The VLANs that a compact VLAN text stands for: its comma-separated items
/// expanded, one after the other.
pub open spec fn expand_vlan_text(t: Seq<char>) -> Seq<u16> {
    expand_items(split_fields(t, ','))
}

/// The VLANs of a list of runs end with those of its last run.
proof fn lemma_expand_runs_last(rs: Seq<(u16, u16)>)
    requires
        rs.len() > 0,
    ensures
        expand_runs(rs) == expand_runs(rs.drop_last()) + vlan_span(rs.last().0, rs.last().1),
    decreases rs.len(),
{
    if rs.len() == 1 {
        assert(rs.drop_last() =~= Seq::<(u16, u16)>::empty());
        assert(rs.drop_first() =~= Seq::<(u16, u16)>::empty());
        assert(expand_runs(rs.drop_first()).len() == 0);
        assert(expand_runs(rs) =~= vlan_span(rs[0].0, rs[0].1));
        assert(expand_runs(rs.drop_last()).len() == 0);
        assert(expand_runs(rs) =~= expand_runs(rs.drop_last()) + vlan_span(rs.last().0, rs.last().1));
    } else {
        lemma_expand_runs_last(rs.drop_first());
        assert(rs.drop_first().drop_last() =~= rs.drop_last().drop_first());
        assert(rs.drop_last()[0] == rs[0]);
        assert(rs.drop_first().last() == rs.last());
        assert(expand_runs(rs) =~= expand_runs(rs.drop_last()) + vlan_span(rs.last().0, rs.last().1));
    }
}

/// The text of an upward run has no comma, and its item stands for the run.
proof fn lemma_item_vlans_of_run(r: (u16, u16))
    requires
        r.0 <= r.1,
    ensures
        item_vlans(run_text(r)) == vlan_span(r.0, r.1),
        forall|j: int| 0 <= j < run_text(r).len() ==> run_text(r)[j] != ',',
{
    reveal_strlit("-");
    lemma_decimal_only_digits(r.0 as nat);
    lemma_decimal_only_digits(r.1 as nat);
    let da = decimal(r.0 as nat);
    let db = decimal(r.1 as nat);
    if r.0 == r.1 {
        assert(first_index_of(da, '-') is None) by {
            if exists|i: int| 0 <= i < da.len() && da[i] == '-' {
                let i = choose|i: int| 0 <= i < da.len() && da[i] == '-';
                assert('0' <= da[i] <= '9');
            }
        }
        lemma_decimal_parses(r.0 as nat, 65535);
        assert(vlan_span(r.0, r.1) =~= seq![r.0]);
    } else {
        assert(run_text(r) =~= da + "-"@ + db);
        lemma_vlan_range_reads_back(r.0, r.1);
        assert forall|j: int| 0 <= j < run_text(r).len() implies run_text(r)[j] != ',' by {
            if j < da.len() {
                assert(run_text(r)[j] == da[j]);
            } else if j > da.len() {
                assert(run_text(r)[j] == db[j - da.len() - 1]);
            }
        }
    }
}

/// The items of the text of upward runs are the texts of the runs, and they
/// stand for the VLANs of the runs.
#[verifier::rlimit(40)]
proof fn lemma_expand_join(rs: Seq<(u16, u16)>)
    requires
        rs.len() > 0,
        forall|k: int| 0 <= k < rs.len() ==> (#[trigger] rs[k]).0 <= rs[k].1,
    ensures
        split_fields(join_runs(rs), ',') == rs.map_values(|r: (u16, u16)| run_text(r)),
        expand_items(split_fields(join_runs(rs), ',')) == expand_runs(rs),
    decreases rs.len(),
{
    let last = rs.last();
    assert(rs[rs.len() - 1] == last);
    lemma_item_vlans_of_run(last);
    if rs.len() == 1 {
        lemma_split_no_sep(run_text(last), ',');
        assert(rs.map_values(|r: (u16, u16)| run_text(r)) =~= seq![run_text(last)]);
        assert(seq![run_text(last)].drop_last() =~= Seq::<Seq<char>>::empty());
        assert(rs.drop_first() =~= Seq::<(u16, u16)>::empty());
        assert(expand_runs(rs.drop_first()).len() == 0);
        assert(expand_runs(rs) =~= vlan_span(last.0, last.1));
        assert(expand_items(Seq::<Seq<char>>::empty()).len() == 0);
        assert(seq![run_text(last)].last() == run_text(last));
        assert(expand_items(seq![run_text(last)]) =~= vlan_span(last.0, last.1));
    } else {
        let init = rs.drop_last();
        assert forall|k: int| 0 <= k < init.len() implies (#[trigger] init[k]).0 <= init[k].1 by {
            assert(init[k] == rs[k]);
        }
        lemma_expand_join(init);
        lemma_split_append_field(join_runs(init), run_text(last), ',');
        let fs = split_fields(join_runs(rs), ',');
        assert(join_runs(rs) == join_runs(init) + seq![','] + run_text(last));
        assert(fs == split_fields(join_runs(init), ',').push(run_text(last)));
        assert(fs =~= rs.map_values(|r: (u16, u16)| run_text(r))) by {
            assert forall|k: int| 0 <= k < fs.len() implies fs[k] == run_text(rs[k]) by {
                if k < init.len() {
                    assert(init[k] == rs[k]);
                }
            }
        }
        assert(fs.drop_last() =~= split_fields(join_runs(init), ','));
        lemma_expand_runs_last(rs);
    }
}

/// The compact VLAN text reads back: its comma-separated items, each the
/// text of one run, taken as `a` to `b` for `a-b` and as itself for a lone
/// number, give back the listed VLANs, in order.
pub proof fn lemma_vlan_text_expands_back(v: Seq<u16>)
    ensures
        v.len() > 0 ==> split_fields(vlan_text(v), ',') == vlan_runs(v, 0).map_values(
            |r: (u16, u16)| run_text(r),
        ),
        expand_vlan_text(vlan_text(v)) == v,
{
    lemma_vlan_runs_lossless(v);
    lemma_runs_shape_from(v, 0);
    let rs = vlan_runs(v, 0);
    if rs.len() == 0 {
        assert(vlan_text(v) =~= Seq::<char>::empty());
        assert(split_fields(vlan_text(v), ',') =~= seq![Seq::<char>::empty()]);
        assert(seq![Seq::<char>::empty()].drop_last() =~= Seq::<Seq<char>>::empty());
        assert(first_index_of(Seq::<char>::empty(), '-') is None);
        assert(parse_unsigned(Seq::<char>::empty(), 10, 65535) is None);
        assert(item_vlans(Seq::<char>::empty()) =~= Seq::<u16>::empty());
        assert(expand_items(Seq::<Seq<char>>::empty()).len() == 0);
        assert(expand_vlan_text(vlan_text(v)) =~= Seq::<u16>::empty());
    } else {
        lemma_expand_join(rs);
    }
}

/// The compact text of an unbroken run of VLANs from `a` to `b` is `a-b`,
/// and it reads back, as a VLAN range, as `(a, b)`.
pub proof fn lemma_run_text_reads_back(a: u16, b: u16)
    requires
        a < b,
    ensures
        vlan_text(vlan_span(a, b)) == decimal(a as nat) + "-"@ + decimal(b as nat),
        vlan_range_of(vlan_text(vlan_span(a, b))) == Ok::<(u16, u16), Seq<char>>((a, b)),
{
    reveal_strlit("-");
    let v = vlan_span(a, b);
    let last = v.len() - 1;
    assert forall|k: int| 0 <= k < last implies #[trigger] v[k + 1] == v[k] + 1 by {}
    lemma_run_len_at(v, 0, last);
    assert(vlan_runs(v, last + 1) =~= Seq::<(u16, u16)>::empty());
    assert(vlan_runs(v, 0) =~= seq![(a, b)]);
    assert(join_runs(seq![(a, b)]) == run_text((a, b)));
    assert(run_text((a, b)) =~= decimal(a as nat) + "-"@ + decimal(b as nat));
    lemma_vlan_range_reads_back(a, b);
}

/// What the sysfs files of an interface read as: its index (a decimal
/// `u32`, white space around it allowed), its MAC address and its
/// operational state; nothing when one of them does not read.
pub open spec fn interface_of_sysfs(
    name: Seq<char>,
    ifindex: Seq<char>,
    address: Seq<char>,
    operstate: Seq<char>,
) -> Option<(u32, Seq<char>, Seq<u8>, OperState)> {
    match (parse_unsigned(trim_ws(ifindex), 10, 0xffff_ffff), oper_state_of(operstate)) {
        (Some(index), Ok(state)) => if mac_fields(address).len() == 6 && mac_text_readable(address) {
            Some(
                (
                    index as u32,
                    name,
                    Seq::new(6, |i: int| parse_unsigned(mac_fields(address)[i], 16, 255)->0 as u8),
                    state,
                ),
            )
        } else {
            None
        },
        _ => None,
    }
}

/// Builds an interface from the contents of its sysfs files `ifindex`,
/// `address` and `operstate`.
pub fn interface_from_sysfs(name: String, ifindex: &str, address: &str, operstate: &str) -> (r: Option<Interface>)
    ensures
        match interface_of_sysfs(name@, ifindex@, address@, operstate@) {
            None => r is None,
            Some(v) => r matches Some(i) && i.index == v.0 && i.name@ == v.1 && i.mac.bytes() == v.2 && i.state == v.3,
        },
{
    let chars = chars_of(ifindex);
    let (lo, hi) = trim_bounds(&chars, 0, chars.len());
    assert(chars@.subrange(0, chars@.len() as int) =~= ifindex@);
    let index = match parse_unsigned_in(&chars, lo, hi, 10, 0xffff_ffff) {
        Some(v) => v as u32,
        None => {
            return None;
        },
    };
    let state = match OperState::from_text(operstate) {
        Ok(st) => st,
        Err(_) => {
            return None;
        },
    };
    if !MacAddress::is_readable(address) {
        return None;
    }
    let mac = match MacAddress::from_text(address) {
        Ok(m) => m,
        Err(_) => {
            return None;
        },
    };
    proof {
        let v = Seq::new(6, |i: int| parse_unsigned(mac_fields(address@)[i], 16, 255)->0 as u8);
        assert(mac.bytes() =~= v) by {
            assert forall|i: int| 0 <= i < 6 implies mac.bytes()[i] == v[i] by {
                assert(parse_unsigned(mac_fields(address@)[i], 16, 255) == Some(mac.bytes()[i] as nat));
            }
        }
    }
    Some(Interface { index, name, mac, state })
}

} // verus!
