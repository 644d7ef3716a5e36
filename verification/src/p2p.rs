//! Addresses of the peer-to-peer chat node: legacy `/ipfs/` addresses and
//! `address/peer-id` pairs given on its command line, read as multiaddrs.
use vstd::prelude::*;
use crate::text::{chars_of, split_fields, split_spans, span_fields};

verus! {

/// A field of a legacy address: `ipfs` becomes `p2p`, any other field
/// stays.
pub open spec fn rename_ipfs(f: Seq<char>) -> Seq<char> {
    if f == "ipfs"@ {
        "p2p"@
    } else {
        f
    }
}

/// Fields joined by `sep`.
pub open spec fn join_fields(fs: Seq<Seq<char>>, sep: char) -> Seq<char>
    decreases fs.len(),
{
    if fs.len() == 0 {
        Seq::empty()
    } else if fs.len() == 1 {
        fs[0]
    } else {
        join_fields(fs.drop_last(), sep) + seq![sep] + fs.last()
    }
}

/// A legacy address with its `ipfs` fields renamed `p2p`.
pub open spec fn sanitized_multiaddr(text: Seq<char>) -> Seq<char> {
    join_fields(split_fields(text, '/').map_values(|f: Seq<char>| rename_ipfs(f)), '/')
}

/// Rewrites a legacy address: every `/`-separated field that reads `ipfs`
/// becomes `p2p`.
pub fn sanitize_legacy_multiaddr(text: &str) -> (r: String)
    ensures
        r@ == sanitized_multiaddr(text@),
{
    proof {
        reveal_strlit("ipfs");
        reveal_strlit("p2p");
        reveal_strlit("/");
    }
    let chars = chars_of(text);
    let spans = split_spans(&chars, 0, chars.len(), '/');
    assert(chars@.subrange(0, chars@.len() as int) =~= text@);
    let ghost fields = split_fields(text@, '/');
    let ghost renamed = fields.map_values(|f: Seq<char>| rename_ipfs(f));
    let mut r = String::new();
    let mut i: usize = 0;
    while i < spans.len()
        invariant
            chars@ == text@,
            fields == span_fields(chars@, spans@),
            renamed == fields.map_values(|f: Seq<char>| rename_ipfs(f)),
            forall|k: int|
                0 <= k < spans@.len() ==> (#[trigger] spans@[k]).0 <= spans@[k].1 <= chars@.len(),
            i <= spans@.len(),
            r@ == join_fields(renamed.take(i as int), '/'),
            "ipfs"@ == seq!['i', 'p', 'f', 's'],
            "p2p"@ == seq!['p', '2', 'p'],
            "/"@ == seq!['/'],
        decreases spans@.len() - i,
    {
        let (a, b) = spans[i];
        let ghost f = chars@.subrange(a as int, b as int);
        assert(fields[i as int] == f);
        if i > 0 {
            r.append("/");
        }
        let is_ipfs = b - a == 4 && chars[a] == 'i' && chars[a + 1] == 'p' && chars[a + 2] == 'f'
            && chars[a + 3] == 's';
        assert(is_ipfs <==> f == "ipfs"@) by {
            if f.len() == 4 {
                assert(f[0] == chars@[a as int] && f[1] == chars@[a + 1] && f[2] == chars@[a + 2]
                    && f[3] == chars@[a + 3]);
                if is_ipfs {
                    assert(f =~= seq!['i', 'p', 'f', 's']);
                }
            }
        }
        if is_ipfs {
            r.append("p2p");
        } else {
            r.append(text.substring_char(a, b));
        }
        proof {
            let t = renamed.take(i + 1);
            assert(t.drop_last() =~= renamed.take(i as int));
            assert(t.last() == rename_ipfs(f));
            if i == 0 {
                assert(renamed.take(0) =~= Seq::<Seq<char>>::empty());
            }
        }
        i = i + 1;
    }
    assert(renamed.take(spans@.len() as int) =~= renamed);
    r
}

/// The index of the last `c` in `s`, if any.
pub open spec fn last_index_of(s: Seq<char>, c: char) -> Option<int> {
    if exists|i: int| 0 <= i < s.len() && s[i] == c {
        Some(choose|i: int| 0 <= i < s.len() && s[i] == c && forall|j: int| i < j < s.len() ==> s[j] != c)
    } else {
        None
    }
}

/// Splits `address/peer-id` at its last `/`: the text of the address to
/// dial (the whole text, peer id included, as the split halves are joined
/// back) and the text of the peer id (what follows the last `/`). A text
/// without `/` names no peer and gives `None`.
pub fn peer_addr_parts(text: &str) -> (r: Option<(String, String)>)
    ensures
        last_index_of(text@, '/') is None ==> r is None,
        last_index_of(text@, '/') matches Some(k) ==> (r matches Some(p) && p.0@ == text@
            && p.1@ == text@.skip(k + 1)),
{
    let n = text.unicode_len();
    let mut i = n;
    while i > 0 && text.get_char(i - 1) != '/'
        invariant
            n == text@.len(),
            i <= n,
            forall|j: int| i <= j < n ==> text@[j] != '/',
        decreases i,
    {
        i = i - 1;
    }
    if i == 0 {
        assert(last_index_of(text@, '/') is None);
        return None;
    }
    assert(last_index_of(text@, '/') == Some(i - 1)) by {
        let k = choose|k: int| 0 <= k < text@.len() && text@[k] == '/' && forall|j: int| k < j < text@.len() ==> text@[j] != '/';
        if k < i - 1 {
            assert(text@[i - 1] == '/');
        }
    }
    let peer = text.substring_char(i, n);
    assert(peer@ =~= text@.skip(i as int));
    Some((String::from_str(text), peer.to_owned()))
}

/// The components of an address, each with whether it is a `p2p`
/// component (a peer id) and its binary encoding.
pub open spec fn parts_view(parts: Seq<(bool, Vec<u8>)>) -> Seq<(bool, Seq<u8>)> {
    parts.map_values(|p: (bool, Vec<u8>)| (p.0, p.1@))
}

/// What reading a text as a multiaddr gives, as `parse_multiaddr` hands it
/// out.
pub open spec fn parts_result_view(r: Result<Vec<(bool, Vec<u8>)>, String>) -> Result<
    Seq<(bool, Seq<u8>)>,
    Seq<char>,
> {
    match r {
        Ok(v) => Ok(parts_view(v@)),
        Err(e) => Err(e@),
    }
}

/// What the `multiaddr` crate reads from a text: the components of the
/// address, each with whether it is a `p2p` component and its binary
/// encoding; or the text of the error.
pub uninterp spec fn multiaddr_parsed(text: Seq<char>) -> Result<Seq<(bool, Seq<u8>)>, Seq<char>>;

/// Reads a text as a multiaddr and hands out its components.
///
/// Calls `Multiaddr::from_str` (re-exported by `libp2p`), then, for each
/// component, tells whether it is `Protocol::P2p` and writes its binary
/// encoding. The contract names the result `multiaddr_parsed`, and states
/// what the source of `from_str` shows plainly: a multiaddr must start with
/// `/` (else the error reads `invalid multiaddr`), and the empty text is
/// the empty address.
#[verifier::external_body]
fn parse_multiaddr(text: &str) -> (r: Result<Vec<(bool, Vec<u8>)>, String>)
    ensures
        parts_result_view(r) == multiaddr_parsed(text@),
        text@.len() == 0 ==> r is Ok && r->Ok_0@.len() == 0,
        text@.len() != 0 && text@[0] != '/' ==> r is Err && r->Err_0@ == "invalid multiaddr"@,
{
    match text.parse::<libp2p::Multiaddr>() {
        Ok(a) => Ok(
            a.iter().map(
                |p| (matches!(p, libp2p::multiaddr::Protocol::P2p(_)), libp2p::Multiaddr::empty().with(p).to_vec()),
            ).collect(),
        ),
        Err(e) => Err(e.to_string()),
    }
}

/// What reading a text as a peer id gives, as `parse_peer_id` hands it out.
pub open spec fn bytes_result_view(r: Result<Vec<u8>, String>) -> Result<Seq<u8>, Seq<char>> {
    match r {
        Ok(v) => Ok(v@),
        Err(e) => Err(e@),
    }
}

/// What `libp2p` reads from the base-58 text of a peer id: the bytes of the
/// peer id, or the text of the error.
pub uninterp spec fn peer_id_parsed(text: Seq<char>) -> Result<Seq<u8>, Seq<char>>;

/// Reads the base-58 text of a peer id.
///
/// Calls `PeerId::from_str` (re-exported by `libp2p`) and hands out the
/// bytes of the peer id, or the text of the error. The contract names the
/// result `peer_id_parsed` and claims nothing more of it.
#[verifier::external_body]
fn parse_peer_id(text: &str) -> (r: Result<Vec<u8>, String>)
    ensures
        bytes_result_view(r) == peer_id_parsed(text@),
{
    match text.parse::<libp2p::PeerId>() {
        Ok(id) => Ok(id.to_bytes()),
        Err(e) => Err(e.to_string()),
    }
}

/// The components of an address without a trailing peer id: the last
/// component is dropped when it is a `p2p` one.
pub open spec fn without_peer_id(parts: Seq<(bool, Seq<u8>)>) -> Seq<(bool, Seq<u8>)> {
    if parts.len() > 0 && parts.last().0 {
        parts.drop_last()
    } else {
        parts
    }
}

/// Removes the peer id from the end of an address, so that the address can
/// be dialed.
pub fn strip_peer_id(parts: &mut Vec<(bool, Vec<u8>)>)
    ensures
        parts_view(final(parts)@) == without_peer_id(parts_view(old(parts)@)),
{
    let n = parts.len();
    if n > 0 && parts[n - 1].0 {
        let _ = parts.pop();
        assert(parts_view(parts@) =~= parts_view(old(parts)@).drop_last());
    }
}

/// Reads a legacy address: its `ipfs` fields renamed `p2p`, read as a
/// multiaddr, and any trailing peer id removed. What the multiaddr reader
/// rejects gives its error.
pub fn parse_legacy_multiaddr(text: &str) -> (r: Result<Vec<(bool, Vec<u8>)>, String>)
    ensures
        match multiaddr_parsed(sanitized_multiaddr(text@)) {
            Ok(ps) => r matches Ok(v) && parts_view(v@) == without_peer_id(ps),
            Err(e) => r matches Err(m) && m@ == e,
        },
{
    let sanitized = sanitize_legacy_multiaddr(text);
    match parse_multiaddr(sanitized.as_str()) {
        Ok(parts) => {
            let mut parts = parts;
            strip_peer_id(&mut parts);
            Ok(parts)
        },
        Err(e) => Err(e),
    }
}

/// Reads `address/peer-id`: the whole text as the multiaddr to dial, and
/// what follows its last `/` as the peer id. The error of the multiaddr
/// reader comes first, then that of the peer id reader. The empty text
/// names no peer and is left out.
pub fn parse_peer_addr(text: &str) -> (r: Result<(Vec<(bool, Vec<u8>)>, Vec<u8>), String>)
    requires
        text@.len() > 0,
    ensures
        match multiaddr_parsed(text@) {
            Err(e) => r matches Err(m) && m@ == e,
            Ok(ps) => last_index_of(text@, '/') is Some && match peer_id_parsed(
                text@.skip(last_index_of(text@, '/')->0 + 1),
            ) {
                Ok(id) => r matches Ok(p) && parts_view(p.0@) == ps && p.1@ == id,
                Err(e) => r matches Err(m) && m@ == e,
            },
        },
{
    let read = parse_multiaddr(text);
    let parts = match read {
        Ok(p) => p,
        Err(e) => {
            return Err(e);
        },
    };
    assert(read is Ok);
    assert(text@[0] == '/');
    assert(last_index_of(text@, '/') is Some) by {
        assert(text@[0] == '/');
    }
    match peer_addr_parts(text) {
        Some((_, peer)) => match parse_peer_id(peer.as_str()) {
            Ok(id) => Ok((parts, id)),
            Err(e) => Err(e),
        },
        None => Err(String::from_str("invalid multiaddr")),
    }
}

} // verus!
