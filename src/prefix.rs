//! IPv4 address prefixes: a length in bits followed by only the octets it covers.
use vstd::prelude::*;
use crate::errors::BgpError;
use crate::wire::{after, lemma_after_after, lemma_after_empty};

verus! {

/// An IPv4 prefix. Octets past those that `length` covers are zero.
#[derive(Debug, Clone, Copy, PartialEq, Eq)]
pub struct Prefix {
    pub length: u8,
    pub prefix: [u8; 4],
}

impl View for Prefix {
    type V = (u8, Seq<u8>);

    open spec fn view(&self) -> (u8, Seq<u8>) {
        (self.length, self.prefix@)
    }
}

/// Number of address octets that a prefix of `length` bits occupies on the wire.
pub open spec fn octet_count(length: u8) -> nat {
    ((length as nat) + 7) / 8
}

/// `s` padded with zero octets to the full four-octet address width.
pub open spec fn padded(s: Seq<u8>) -> Seq<u8> {
    s + Seq::new((4 - s.len()) as nat, |_j: int| 0u8)
}

/// A prefix of at most 32 bits whose uncovered octets are zero.
pub open spec fn prefix_wf(p: (u8, Seq<u8>)) -> bool {
    &&& p.0 <= 32
    &&& p.1.len() == 4
    &&& forall|j: int| octet_count(p.0) <= j < 4 ==> p.1[j] == 0
}

/// The wire form of one prefix.
pub open spec fn prefix_bytes(p: (u8, Seq<u8>)) -> Seq<u8> {
    seq![p.0] + p.1.take(octet_count(p.0) as int)
}

/// The wire form of a list of prefixes, back to back.
pub open spec fn prefixes_bytes(ps: Seq<(u8, Seq<u8>)>) -> Seq<u8>
    decreases ps.len(),
{
    if ps.len() == 0 {
        seq![]
    } else {
        prefix_bytes(ps[0]) + prefixes_bytes(ps.skip(1))
    }
}

/// Decodes the prefix at the start of `b`: the prefix and the bytes it took.
pub open spec fn parse_prefix(b: Seq<u8>) -> Result<((u8, Seq<u8>), nat), BgpError> {
    if b.len() == 0 {
        Err(BgpError::Truncated)
    } else if b[0] > 32 {
        Err(BgpError::InvalidPrefixLength)
    } else if b.len() < 1 + octet_count(b[0]) {
        Err(BgpError::Truncated)
    } else {
        Ok(((b[0], padded(b.subrange(1, 1 + octet_count(b[0]) as int))), 1 + octet_count(b[0])))
    }
}

/// Decodes prefixes until `b` is used up exactly.
pub open spec fn parse_prefixes(b: Seq<u8>) -> Result<Seq<(u8, Seq<u8>)>, BgpError>
    decreases b.len(),
{
    if b.len() == 0 {
        Ok(seq![])
    } else {
        match parse_prefix(b) {
            Err(e) => Err(e),
            Ok((p, n)) => if 0 < n <= b.len() {
                match parse_prefixes(b.skip(n as int)) {
                    Err(e) => Err(e),
                    Ok(rest) => Ok(seq![p] + rest),
                }
            } else {
                Err(BgpError::Truncated)
            },
        }
    }
}

/// The views of a list of prefixes.
pub open spec fn views(ps: Seq<Prefix>) -> Seq<(u8, Seq<u8>)> {
    ps.map_values(|p: Prefix| p@)
}

/// Decoding the wire form of a well-formed prefix, whatever follows it, gives back
/// the prefix and consumes exactly its wire form.
pub proof fn lemma_prefix_round_trip(p: (u8, Seq<u8>), rest: Seq<u8>)
    requires
        prefix_wf(p),
    ensures
        parse_prefix(prefix_bytes(p) + rest) == Ok::<_, BgpError>((p, prefix_bytes(p).len())),
{
    let b = prefix_bytes(p) + rest;
    let n = octet_count(p.0);
    assert(b.subrange(1, 1 + n as int) =~= p.1.take(n as int));
    assert(padded(p.1.take(n as int)) =~= p.1);
}

/// Decoding the wire form of a list of well-formed prefixes gives back the list.
pub proof fn lemma_prefixes_round_trip(ps: Seq<(u8, Seq<u8>)>)
    requires
        forall|k: int| 0 <= k < ps.len() ==> prefix_wf(#[trigger] ps[k]),
    ensures
        parse_prefixes(prefixes_bytes(ps)) == Ok::<_, BgpError>(ps),
    decreases ps.len(),
{
    if ps.len() == 0 {
        assert(prefixes_bytes(ps) =~= Seq::<u8>::empty());
        assert(ps =~= Seq::<(u8, Seq<u8>)>::empty());
    } else {
        let b = prefixes_bytes(ps);
        let head = prefix_bytes(ps[0]);
        let tail = prefixes_bytes(ps.skip(1));
        assert(ps.skip(1).len() < ps.len());
        assert forall|k: int| 0 <= k < ps.skip(1).len() implies prefix_wf(#[trigger] ps.skip(1)[k]) by {
            assert(ps.skip(1)[k] == ps[k + 1]);
        }
        lemma_prefixes_round_trip(ps.skip(1));
        assert(prefix_wf(ps[0]));
        lemma_prefix_round_trip(ps[0], tail);
        assert(b == head + tail);
        assert(b.len() > 0);
        assert(parse_prefix(b) == Ok::<_, BgpError>((ps[0], head.len())));
        assert(b.skip(head.len() as int) =~= tail);
        assert(parse_prefixes(b.skip(head.len() as int)) == Ok::<_, BgpError>(ps.skip(1)));
        assert(seq![ps[0]] + ps.skip(1) =~= ps);
        assert(0 < head.len() <= b.len());
    }
}

/// Builds a prefix from `length` and the `n` octets at `at`, zero-filling the rest.
fn take_prefix(data: &[u8], at: usize, length: u8, n: usize) -> (p: Prefix)
    requires
        n <= 4,
        at + n <= data@.len(),
    ensures
        p.length == length,
        p.prefix@ == padded(data@.subrange(at as int, at + n)),
{
    let o0 = if n > 0 { data[at] } else { 0 };
    let o1 = if n > 1 { data[at + 1] } else { 0 };
    let o2 = if n > 2 { data[at + 2] } else { 0 };
    let o3 = if n > 3 { data[at + 3] } else { 0 };
    let p = Prefix { length, prefix: [o0, o1, o2, o3] };
    assert(p.prefix@ =~= padded(data@.subrange(at as int, at + n)));
    p
}

/// Decodes the prefix at the start of `data`: the prefix and the bytes it took.
pub fn decode_prefix(data: &[u8]) -> (r: Result<(Prefix, usize), BgpError>)
    ensures
        match parse_prefix(data@) {
            Ok((p, n)) => r matches Ok((q, m)) && q@ == p && m == n,
            Err(e) => r == Err::<(Prefix, usize), _>(e),
        },
{
    if data.len() == 0 {
        return Err(BgpError::Truncated);
    }
    let length = data[0];
    if length > 32 {
        return Err(BgpError::InvalidPrefixLength);
    }
    let n: usize = ((length as usize) + 7) / 8;
    if data.len() - 1 < n {
        return Err(BgpError::Truncated);
    }
    let p = take_prefix(data, 1, length, n);
    Ok((p, 1 + n))
}

/// Decodes a list of prefixes that fills `data` exactly.
pub fn extract_prefixes(data: &[u8]) -> (r: Result<Vec<Prefix>, BgpError>)
    ensures
        r matches Ok(v) ==> parse_prefixes(data@) == Ok::<_, BgpError>(views(v@)),
        r matches Err(e) ==> parse_prefixes(data@) == Err::<Seq<(u8, Seq<u8>)>, _>(e),
{
    let mut routes: Vec<Prefix> = Vec::new();
    let mut i: usize = 0;
    proof {
        assert(data@.skip(0) =~= data@);
        assert(views(routes@) =~= Seq::<(u8, Seq<u8>)>::empty());
        lemma_after_empty(parse_prefixes(data@));
    }
    while i < data.len()
        invariant
            i <= data@.len(),
            parse_prefixes(data@) == after(views(routes@), parse_prefixes(data@.skip(i as int))),
        decreases data@.len() - i,
    {
        let rest = Ghost(data@.skip(i as int));
        let (p, n) = match decode_prefix(&data[i..data.len()]) {
            Ok(r) => r,
            Err(e) => {
                assert(data@.subrange(i as int, data@.len() as int) =~= rest@);
                return Err(e);
            },
        };
        proof {
            assert(data@.subrange(i as int, data@.len() as int) =~= rest@);
            assert(rest@.skip(n as int) =~= data@.skip(i + n));
            assert(views(routes@.push(p)) =~= views(routes@) + seq![p@]);
            assert(parse_prefixes(rest@) == after(seq![p@], parse_prefixes(rest@.skip(n as int))));
            lemma_after_after(views(routes@), seq![p@], parse_prefixes(data@.skip(i + n)));
        }
        routes.push(p);
        i = i + n;
    }
    assert(data@.skip(i as int).len() == 0);
    assert(views(routes@) + seq![] =~= views(routes@));
    Ok(routes)
}

/// Appends the wire form of `p`: its length, then only the octets it covers.
pub fn encode_prefix(out: &mut Vec<u8>, p: &Prefix) -> (r: Result<(), BgpError>)
    ensures
        p.length <= 32 <==> r is Ok,
        r is Ok ==> final(out)@ == old(out)@ + prefix_bytes(p@),
        r matches Err(e) ==> e == BgpError::InvalidPrefixLength && final(out)@ == old(out)@,
{
    if p.length > 32 {
        return Err(BgpError::InvalidPrefixLength);
    }
    let n: usize = ((p.length as usize) + 7) / 8;
    let ghost before = out@;
    out.push(p.length);
    let mut j: usize = 0;
    while j < n
        invariant
            j <= n,
            n <= 4,
            n == octet_count(p.length),
            out@ == before + seq![p.length] + p.prefix@.take(j as int),
        decreases n - j,
    {
        out.push(p.prefix[j]);
        assert(p.prefix@.take(j + 1) =~= p.prefix@.take(j as int).push(p.prefix@[j as int]));
        j = j + 1;
    }
    assert(out@ =~= before + prefix_bytes(p@));
    Ok(())
}

/// Encodes the prefixes back to back, each with only the octets its length covers.
pub fn compile_prefixes(prefixes: Vec<Prefix>) -> (r: Result<Vec<u8>, BgpError>)
    ensures
        (forall|k: int| 0 <= k < prefixes@.len() ==> prefixes@[k].length <= 32) <==> r is Ok,
        r matches Ok(b) ==> b@ == prefixes_bytes(views(prefixes@)),
        r matches Err(e) ==> e == BgpError::InvalidPrefixLength,
{
    let mut data: Vec<u8> = Vec::new();
    let mut k: usize = 0;
    assert(views(prefixes@).skip(0) =~= views(prefixes@));
    assert(data@ + prefixes_bytes(views(prefixes@)) =~= prefixes_bytes(views(prefixes@)));
    while k < prefixes.len()
        invariant
            k <= prefixes@.len(),
            forall|j: int| 0 <= j < k ==> prefixes@[j].length <= 32,
            prefixes_bytes(views(prefixes@)) == data@ + prefixes_bytes(views(prefixes@).skip(k as int)),
        decreases prefixes@.len() - k,
    {
        let p = &prefixes[k];
        match encode_prefix(&mut data, p) {
            Ok(()) => {},
            Err(e) => {
                return Err(e);
            },
        }
        assert(views(prefixes@).skip(k as int).skip(1) =~= views(prefixes@).skip(k + 1));
        assert(views(prefixes@).skip(k as int)[0] == p@);
        k = k + 1;
    }
    assert(views(prefixes@).skip(k as int) =~= seq![]);
    assert(data@ + seq![] =~= data@);
    Ok(data)
}

} // verus!
