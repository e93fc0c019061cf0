//! Domain names: decoding from a message, with compression pointers, and
//! encoding into one, with a dictionary of names already written.
use crate::codes::SimpleDnsError;
use crate::wire::{be_bytes, be_u16_bytes, bytes_eq, copy_range};
use std::collections::HashMap;
use vstd::prelude::*;
use vstd::string::StringSliceAdditionalSpecFns;

verus! {

/// `w` is a sequence of labels written out in full: each label is a length
/// byte from 1 to 63 followed by that many bytes, and the sequence ends with
/// the zero-length root label.
pub open spec fn is_plain_name(w: Seq<u8>) -> bool
    decreases w.len(),
{
    if w.len() == 0 {
        false
    } else if w[0] == 0 {
        w.len() == 1
    } else {
        w[0] < 64 && 1 + w[0] < w.len() && is_plain_name(w.subrange(1 + w[0] as int, w.len() as int))
    }
}

/// The longest encoded name allowed.
pub const MAX_NAME_LEN: usize = 255;

/// A well-formed uncompressed name of at most 255 bytes.
pub open spec fn name_ok(w: Seq<u8>) -> bool {
    is_plain_name(w) && w.len() <= MAX_NAME_LEN
}

/// The name that starts at `pos` in the message `data`, with every
/// compression pointer followed, written out in full, together with the
/// position just after the bytes it occupies at `pos`; `None` where the bytes
/// there are no name. Only the bytes before `limit` are read, and a name
/// reached through a pointer must lie wholly before that pointer. `budget` is
/// the number of bytes that the name may still take.
pub open spec fn name_from(data: Seq<u8>, pos: int, limit: int, budget: int) -> Option<(Seq<u8>, int)>
    decreases budget, pos,
{
    if pos < 0 || pos >= limit || limit > data.len() || budget < 1 {
        None
    } else {
        let l = data[pos] as int;
        if l == 0 {
            Some((seq![0u8], pos + 1))
        } else if l < 64 {
            if l + 2 > budget || pos + 1 + l > limit {
                None
            } else {
                match name_from(data, pos + 1 + l, limit, budget - (l + 1)) {
                    Some((w, e)) => Some((data.subrange(pos, pos + 1 + l) + w, e)),
                    None => None,
                }
            }
        } else if l >= 192 {
            if pos + 2 > limit {
                None
            } else {
                let target = (l - 192) * 256 + data[pos + 1] as int;
                if target >= pos {
                    None
                } else {
                    match name_from(data, target, pos, budget) {
                        Some((w, _)) => Some((w, pos + 2)),
                        None => None,
                    }
                }
            }
        } else {
            None
        }
    }
}

/// What `name_from` yields is a well-formed name within its budget, and it
/// ends after its start and no later than its limit.
pub proof fn lemma_name_from_ok(data: Seq<u8>, pos: int, limit: int, budget: int)
    requires
        name_from(data, pos, limit, budget) is Some,
    ensures
        is_plain_name(name_from(data, pos, limit, budget).unwrap().0),
        name_from(data, pos, limit, budget).unwrap().0.len() <= budget,
        pos < name_from(data, pos, limit, budget).unwrap().1 <= limit <= data.len(),
    decreases budget, pos,
{
    let l = data[pos] as int;
    if l == 0 {
        assert(is_plain_name(seq![0u8]));
    } else if l < 64 {
        lemma_name_from_ok(data, pos + 1 + l, limit, budget - (l + 1));
        let rest = name_from(data, pos + 1 + l, limit, budget - (l + 1)).unwrap().0;
        let w = data.subrange(pos, pos + 1 + l) + rest;
        assert(w.subrange(1 + l, w.len() as int) =~= rest);
    } else {
        let target = (l - 192) * 256 + data[pos + 1] as int;
        lemma_name_from_ok(data, target, pos, budget);
    }
}

/// Moving the limit does not change a name that ends before it.
pub proof fn lemma_name_from_limit(data: Seq<u8>, pos: int, l1: int, l2: int, budget: int)
    requires
        name_from(data, pos, l1, budget) is Some,
        name_from(data, pos, l1, budget).unwrap().1 <= l2 <= data.len(),
    ensures
        name_from(data, pos, l2, budget) == name_from(data, pos, l1, budget),
    decreases budget, pos,
{
    lemma_name_from_ok(data, pos, l1, budget);
    let l = data[pos] as int;
    if 0 < l < 64 {
        lemma_name_from_ok(data, pos + 1 + l, l1, budget - (l + 1));
        lemma_name_from_limit(data, pos + 1 + l, l1, l2, budget - (l + 1));
    }
}

/// Only the bytes before the limit decide the name: two messages that agree
/// there read the same name.
pub proof fn lemma_name_from_prefix(d1: Seq<u8>, d2: Seq<u8>, pos: int, limit: int, budget: int)
    requires
        limit <= d1.len(),
        limit <= d2.len(),
        d1.subrange(0, limit) == d2.subrange(0, limit),
    ensures
        name_from(d1, pos, limit, budget) == name_from(d2, pos, limit, budget),
    decreases budget, pos,
{
    if 0 <= pos < limit && budget >= 1 {
        assert(d1[pos] == d1.subrange(0, limit)[pos]);
        assert(d2[pos] == d2.subrange(0, limit)[pos]);
        let l = d1[pos] as int;
        if 0 < l < 64 && l + 2 <= budget && pos + 1 + l <= limit {
            lemma_name_from_prefix(d1, d2, pos + 1 + l, limit, budget - (l + 1));
            assert(d1.subrange(pos, pos + 1 + l) =~= d2.subrange(pos, pos + 1 + l)) by {
                assert forall|i: int| pos <= i < pos + 1 + l implies d1[i] == d2[i] by {
                    assert(d1[i] == d1.subrange(0, limit)[i]);
                    assert(d2[i] == d2.subrange(0, limit)[i]);
                }
            }
        } else if l >= 192 && pos + 2 <= limit {
            assert(d1[pos + 1] == d1.subrange(0, limit)[pos + 1]);
            assert(d2[pos + 1] == d2.subrange(0, limit)[pos + 1]);
            let target = (l - 192) * 256 + d1[pos + 1] as int;
            if target < pos {
                assert(d1.subrange(0, pos) =~= d1.subrange(0, limit).subrange(0, pos));
                assert(d2.subrange(0, pos) =~= d2.subrange(0, limit).subrange(0, pos));
                lemma_name_from_prefix(d1, d2, target, pos, budget);
            }
        }
    }
}

/// A well-formed name written out in full at `pos` reads back as itself,
/// whatever surrounds it.
pub proof fn lemma_name_from_plain(data: Seq<u8>, pos: int, w: Seq<u8>, budget: int)
    requires
        is_plain_name(w),
        w.len() <= budget,
        0 <= pos,
        pos + w.len() <= data.len(),
        data.subrange(pos, pos + w.len()) == w,
    ensures
        name_from(data, pos, data.len() as int, budget) == Some((w, pos + w.len())),
    decreases w.len(),
{
    assert(data[pos] == w[0]);
    if w[0] == 0 {
        assert(w =~= seq![0u8]);
    } else {
        let l = w[0] as int;
        let rest = w.subrange(1 + l, w.len() as int);
        assert(data.subrange(pos + 1 + l, pos + 1 + l + rest.len()) =~= rest);
        lemma_name_from_plain(data, pos + 1 + l, rest, budget - (l + 1));
        assert(data.subrange(pos, pos + 1 + l) =~= w.subrange(0, 1 + l));
        assert(w.subrange(0, 1 + l) + rest =~= w);
    }
}

/// Reads the name at `pos`, appending it in full to `out`, and returns the
/// position after the bytes it occupies at `pos`.
fn read_name(data: &[u8], pos: usize, limit: usize, budget: usize, out: &mut Vec<u8>) -> (r:
    Option<usize>)
    requires
        budget <= MAX_NAME_LEN,
    ensures
        match name_from(data@, pos as int, limit as int, budget as int) {
            Some((w, e)) => (r matches Some(x) && x as int == e) && final(out)@ == old(out)@ + w,
            None => r is None,
        },
    decreases budget, pos,
{
    if pos >= limit || limit > data.len() || budget < 1 {
        return None;
    }
    let l = data[pos];
    if l == 0 {
        out.push(0);
        assert(final(out)@ =~= old(out)@ + seq![0u8]);
        Some(pos + 1)
    } else if l < 64 {
        let lu = l as usize;
        if lu + 2 > budget || limit - pos - 1 < lu {
            return None;
        }
        let ghost before = out@;
        let end: usize = pos + 1 + lu;
        let mut i: usize = pos;
        while i < end
            invariant
                end == pos + 1 + lu,
                pos <= i <= end <= data@.len(),
                out@ == before + data@.subrange(pos as int, i as int),
            decreases end - i,
        {
            out.push(data[i]);
            i = i + 1;
            assert(out@ =~= before + data@.subrange(pos as int, i as int));
        }
        let r = read_name(data, pos + 1 + lu, limit, budget - (lu + 1), out);
        proof {
            if let Some((w, e)) = name_from(
                data@,
                (pos + 1 + lu) as int,
                limit as int,
                (budget - (lu + 1)) as int,
            ) {
                assert(final(out)@ =~= before + (data@.subrange(pos as int, pos + 1 + lu) + w));
            }
        }
        r
    } else if l >= 192 {
        if limit - pos < 2 {
            return None;
        }
        let target = ((l - 192) as usize) * 256 + data[pos + 1] as usize;
        if target >= pos {
            return None;
        }
        match read_name(data, target, pos, budget, out) {
            Some(_) => Some(pos + 2),
            None => None,
        }
    } else {
        None
    }
}

/// Whether the bytes of `b` from `pos` on form a plain name.
fn plain_from(b: &[u8], pos: usize) -> (r: bool)
    requires
        pos <= b@.len(),
    ensures
        r == is_plain_name(b@.subrange(pos as int, b@.len() as int)),
    decreases b@.len() - pos,
{
    let ghost s = b@.subrange(pos as int, b@.len() as int);
    if pos >= b.len() {
        return false;
    }
    let l = b[pos];
    assert(s[0] == l);
    if l == 0 {
        pos + 1 == b.len()
    } else if l >= 64 {
        false
    } else if (l as usize) + 1 >= b.len() - pos {
        false
    } else {
        assert(s.subrange(1 + l as int, s.len() as int) =~= b@.subrange(pos + 1 + l as int, b@.len() as int));
        plain_from(b, pos + 1 + l as usize)
    }
}

/// The labels of the plain name `w`, separated by dots.
pub open spec fn name_text(w: Seq<u8>) -> Seq<u8>
    decreases w.len(),
{
    if w.len() == 0 || w[0] == 0 || 1 + w[0] >= w.len() {
        Seq::empty()
    } else {
        let l = w[0] as int;
        let label = w.subrange(1, 1 + l);
        let rest = w.subrange(1 + l, w.len() as int);
        if rest[0] == 0 {
            label
        } else {
            label + seq![0x2eu8] + name_text(rest)
        }
    }
}

/// The position of the first dot in `t`, or its length where it has none.
pub open spec fn first_dot(t: Seq<u8>) -> nat
    decreases t.len(),
{
    if t.len() == 0 || t[0] == 0x2e {
        0
    } else {
        1 + first_dot(t.drop_first())
    }
}

proof fn lemma_first_dot(t: Seq<u8>)
    ensures
        first_dot(t) <= t.len(),
        first_dot(t) < t.len() ==> t[first_dot(t) as int] == 0x2e,
    decreases t.len(),
{
    if t.len() > 0 && t[0] != 0x2e {
        lemma_first_dot(t.drop_first());
    }
}

/// The labels of the dotted text `t` written out, each of 1 to 63 bytes, with
/// the root label at the end; `None` where a label is empty or too long.
pub open spec fn labels_wire(t: Seq<u8>) -> Option<Seq<u8>>
    decreases t.len(),
{
    let i = first_dot(t) as int;
    if i == 0 || i > 63 || i > t.len() {
        None
    } else if i == t.len() {
        Some(seq![i as u8] + t + seq![0u8])
    } else {
        match labels_wire(t.subrange(i + 1, t.len() as int)) {
            Some(w) => Some(seq![i as u8] + t.subrange(0, i) + w),
            None => None,
        }
    }
}

/// The encoding of the dotted text `t`: the empty text is the root name.
pub open spec fn text_wire(t: Seq<u8>) -> Option<Seq<u8>> {
    if t.len() == 0 {
        Some(seq![0u8])
    } else {
        labels_wire(t)
    }
}

/// What `labels_wire` gives is a plain name whose text is `t`.
proof fn lemma_labels_wire(t: Seq<u8>)
    requires
        labels_wire(t) is Some,
    ensures
        is_plain_name(labels_wire(t).unwrap()),
        name_text(labels_wire(t).unwrap()) == t,
        labels_wire(t).unwrap()[0] != 0,
    decreases t.len(),
{
    lemma_first_dot(t);
    let i = first_dot(t) as int;
    let w = labels_wire(t).unwrap();
    if i == t.len() {
        assert(w.subrange(1 + i, w.len() as int) =~= seq![0u8]);
        assert(w.subrange(1, 1 + i) =~= t);
        assert(is_plain_name(seq![0u8]));
    } else {
        let rest_t = t.subrange(i + 1, t.len() as int);
        lemma_labels_wire(rest_t);
        let rw = labels_wire(rest_t).unwrap();
        assert(w.subrange(1 + i, w.len() as int) =~= rw);
        assert(w.subrange(1, 1 + i) =~= t.subrange(0, i));
        assert(t =~= t.subrange(0, i) + seq![0x2eu8] + rest_t);
    }
}

/// Writes out the labels of `t[start..]`.
fn build_labels(t: &[u8], start: usize) -> (r: Option<Vec<u8>>)
    requires
        start <= t@.len(),
    ensures
        match labels_wire(t@.subrange(start as int, t@.len() as int)) {
            Some(w) => r matches Some(v) && v@ == w,
            None => r is None,
        },
    decreases t@.len() - start,
{
    let ghost s = t@.subrange(start as int, t@.len() as int);
    let mut k: usize = start;
    while k < t.len() && t[k] != 0x2e
        invariant
            start <= k <= t@.len(),
            first_dot(s) == (k - start) + first_dot(t@.subrange(k as int, t@.len() as int)),
        decreases t@.len() - k,
    {
        assert(t@.subrange(k as int, t@.len() as int).drop_first() =~= t@.subrange(
            k + 1,
            t@.len() as int,
        ));
        k = k + 1;
    }
    let i = k - start;
    assert(first_dot(s) == i);
    if i == 0 || i > 63 {
        return None;
    }
    let mut w: Vec<u8> = Vec::new();
    w.push(i as u8);
    let mut label = copy_range(t, start, k);
    w.append(&mut label);
    if k == t.len() {
        w.push(0);
        assert(w@ =~= seq![i as u8] + s + seq![0u8]);
        Some(w)
    } else {
        assert(s.subrange(i + 1, s.len() as int) =~= t@.subrange(k + 1, t@.len() as int));
        match build_labels(t, k + 1) {
            Some(mut rest) => {
                let ghost rv = rest@;
                w.append(&mut rest);
                assert(w@ =~= seq![i as u8] + s.subrange(0, i as int) + rv);
                Some(w)
            },
            None => None,
        }
    }
}

/// Appends the dotted text of the name at `w[pos..]` to `out`.
fn text_from(w: &[u8], pos: usize, out: &mut Vec<u8>)
    requires
        pos <= w@.len(),
    ensures
        final(out)@ == old(out)@ + name_text(w@.subrange(pos as int, w@.len() as int)),
    decreases w@.len() - pos,
{
    let ghost s = w@.subrange(pos as int, w@.len() as int);
    if pos >= w.len() {
        assert(final(out)@ =~= old(out)@ + name_text(s));
        return;
    }
    let l = w[pos] as usize;
    assert(s[0] == w@[pos as int]);
    if l == 0 || l + 1 >= w.len() - pos {
        assert(final(out)@ =~= old(out)@ + name_text(s));
        return;
    }
    let next = pos + 1 + l;
    let mut label = copy_range(w, pos + 1, next);
    assert(label@ =~= s.subrange(1, 1 + l as int));
    assert(s.subrange(1 + l as int, s.len() as int) =~= w@.subrange(next as int, w@.len() as int));
    out.append(&mut label);
    if w[next] == 0 {
        assert(final(out)@ =~= old(out)@ + name_text(s));
        return;
    }
    out.push(0x2e);
    text_from(w, next, out);
    assert(final(out)@ =~= old(out)@ + name_text(s));
}

/// The dictionary key of a name: 64-bit FNV-1a over its encoded bytes.
pub open spec fn name_key(w: Seq<u8>) -> u64
    decreases w.len(),
{
    if w.len() == 0 {
        0xcbf2_9ce4_8422_2325
    } else {
        vstd::wrapping::u64_specs::wrapping_mul(
            name_key(w.drop_last()) ^ (w.last() as u64),
            0x100_0000_01b3,
        )
    }
}

/// Offsets at or beyond this cannot be the target of a compression pointer.
pub const POINTER_LIMIT: usize = 0x4000;

/// The offset that `refs` holds for the name `w`, if a pointer can reach it.
pub open spec fn earlier_offset(w: Seq<u8>, refs: Map<u64, usize>) -> Option<usize> {
    let k = name_key(w);
    if refs.contains_key(k) && refs[k] < POINTER_LIMIT {
        Some(refs[k])
    } else {
        None
    }
}

/// The bytes that encode the name `w` given the dictionary `refs`: a pointer
/// to an earlier copy, or the name in full.
pub open spec fn name_emit(w: Seq<u8>, refs: Map<u64, usize>) -> Seq<u8> {
    match earlier_offset(w, refs) {
        Some(off) => be_bytes(0xC000 + off as nat, 2),
        None => w,
    }
}

/// The dictionary after the name `w` is encoded at offset `at`: the first
/// occurrence of a name keeps its entry, and a name not yet recorded is
/// recorded where a pointer can reach it.
pub open spec fn refs_after(w: Seq<u8>, refs: Map<u64, usize>, at: int) -> Map<u64, usize> {
    if !refs.contains_key(name_key(w)) && at < POINTER_LIMIT {
        refs.insert(name_key(w), at as usize)
    } else {
        refs
    }
}

/// Encoding a name keeps every entry of the dictionary as it was, and adds
/// at most one: the name's own key, at the offset where it was written.
pub proof fn lemma_refs_after_keeps_entries(w: Seq<u8>, refs: Map<u64, usize>, at: int)
    requires
        0 <= at,
    ensures
        forall|k: u64| #[trigger]
            refs.contains_key(k) ==> refs_after(w, refs, at).contains_key(k) && refs_after(
                w,
                refs,
                at,
            )[k] == refs[k],
        forall|k: u64| #[trigger]
            refs_after(w, refs, at).contains_key(k) && !refs.contains_key(k) ==> k == name_key(w)
                && refs_after(w, refs, at)[k] as int == at,
{
}

/// A domain name, held uncompressed as its sequence of labels.
#[derive(Debug, Hash)]
pub struct Name {
    wire: Vec<u8>,
}

impl View for Name {
    type V = Seq<u8>;

    closed spec fn view(&self) -> Seq<u8> {
        self.wire@
    }
}

impl Clone for Name {
    fn clone(&self) -> (r: Self)
        ensures
            r@ == self@,
    {
        proof {
            use_type_invariant(self);
        }
        let w = copy_range(self.wire.as_slice(), 0, self.wire.len());
        assert(w@ =~= self.wire@);
        Name { wire: w }
    }
}

impl PartialEq for Name {
    fn eq(&self, o: &Name) -> (r: bool) {
        bytes_eq(&self.wire, &o.wire)
    }
}

impl vstd::std_specs::cmp::PartialEqSpecImpl for Name {
    open spec fn obeys_eq_spec() -> bool {
        true
    }

    open spec fn eq_spec(&self, o: &Name) -> bool {
        self@ == o@
    }
}

impl Eq for Name {
}

impl Name {
    #[verifier::type_invariant]
    spec fn inv(&self) -> bool {
        name_ok(self.wire@)
    }

    /// The name whose uncompressed encoding is `bytes`; malformed bytes are an
    /// error.
    pub fn from_wire(bytes: &[u8]) -> (r: Result<Name, SimpleDnsError>)
        ensures
            name_ok(bytes@) ==> (r matches Ok(n) && n@ == bytes@),
            !name_ok(bytes@) ==> r == Err::<Name, SimpleDnsError>(SimpleDnsError::InvalidName),
    {
        if bytes.len() > MAX_NAME_LEN {
            return Err(SimpleDnsError::InvalidName);
        }
        assert(bytes@.subrange(0, bytes@.len() as int) =~= bytes@);
        if !plain_from(bytes, 0) {
            return Err(SimpleDnsError::InvalidName);
        }
        let w = copy_range(bytes, 0, bytes.len());
        assert(bytes@.subrange(0, bytes@.len() as int) =~= bytes@);
        Ok(Name { wire: w })
    }

    /// Decodes the name at `pos` in the message `data`, following compression
    /// pointers to names that lie wholly before them, and returns it with the
    /// position just after its bytes at `pos`.
    pub fn parse(data: &[u8], pos: usize) -> (r: Result<(Name, usize), SimpleDnsError>)
        ensures
            match name_from(data@, pos as int, data@.len() as int, MAX_NAME_LEN as int) {
                Some((w, e)) => r matches Ok((n, end)) && n@ == w && end == e,
                None => r == Err::<(Name, usize), SimpleDnsError>(SimpleDnsError::InvalidName),
            },
    {
        let mut w: Vec<u8> = Vec::new();
        match read_name(data, pos, data.len(), MAX_NAME_LEN, &mut w) {
            Some(e) => {
                proof {
                    lemma_name_from_ok(data@, pos as int, data@.len() as int, MAX_NAME_LEN as int);
                    assert(w@ =~= name_from(data@, pos as int, data@.len() as int, MAX_NAME_LEN as int).unwrap().0);
                }
                let n = Name { wire: w };
                assert(n@ == name_from(data@, pos as int, data@.len() as int, MAX_NAME_LEN as int).unwrap().0);
                assert(e as int == name_from(data@, pos as int, data@.len() as int, MAX_NAME_LEN as int).unwrap().1);
                Ok((n, e))
            },
            None => Err(SimpleDnsError::InvalidName),
        }
    }

    /// The length of the name written out in full.
    pub fn len(&self) -> (r: usize)
        ensures
            r == self@.len(),
            name_ok(self@),
    {
        proof {
            use_type_invariant(self);
        }
        self.wire.len()
    }

    /// The name's bytes, written in full.
    pub fn as_bytes(&self) -> (r: &[u8])
        ensures
            r@ == self@,
            name_ok(self@),
    {
        proof {
            use_type_invariant(self);
        }
        self.wire.as_slice()
    }

    /// The name written as dotted text, such as `_srv._udp.local`; the empty
    /// text is the root. An empty label, a label over 63 bytes, or a name over
    /// 255 bytes is an error.
    pub fn new(text: &str) -> (r: Result<Name, SimpleDnsError>)
        ensures
            match text_wire(text.spec_bytes()) {
                Some(w) => if w.len() <= MAX_NAME_LEN {
                    r matches Ok(n) && n@ == w && name_text(n@) == text.spec_bytes()
                } else {
                    r == Err::<Name, SimpleDnsError>(SimpleDnsError::InvalidName)
                },
                None => r == Err::<Name, SimpleDnsError>(SimpleDnsError::InvalidName),
            },
    {
        let t = text.as_bytes();
        if t.len() == 0 {
            let mut w: Vec<u8> = Vec::new();
            w.push(0);
            assert(w@ =~= seq![0u8]);
            assert(is_plain_name(w@));
            return Ok(Name { wire: w });
        }
        assert(t@.subrange(0, t@.len() as int) =~= t@);
        match build_labels(t, 0) {
            Some(w) => {
                proof {
                    lemma_labels_wire(t@);
                }
                if w.len() > MAX_NAME_LEN {
                    Err(SimpleDnsError::InvalidName)
                } else {
                    Ok(Name { wire: w })
                }
            },
            None => Err(SimpleDnsError::InvalidName),
        }
    }

    /// The name as text: its labels separated by dots.
    pub fn text(&self) -> (r: Vec<u8>)
        ensures
            r@ == name_text(self@),
    {
        let mut out: Vec<u8> = Vec::new();
        text_from(self.wire.as_slice(), 0, &mut out);
        assert(self.wire@.subrange(0, self.wire@.len() as int) =~= self.wire@);
        assert(out@ =~= name_text(self@));
        out
    }

    /// The dictionary key of this name.
    pub fn key(&self) -> (r: u64)
        ensures
            r == name_key(self@),
    {
        let mut h: u64 = 0xcbf2_9ce4_8422_2325;
        let mut i: usize = 0;
        while i < self.wire.len()
            invariant
                i <= self.wire@.len(),
                h == name_key(self.wire@.subrange(0, i as int)),
            decreases self.wire@.len() - i,
        {
            proof {
                let s = self.wire@.subrange(0, i + 1);
                assert(s.drop_last() =~= self.wire@.subrange(0, i as int));
            }
            h = (h ^ (self.wire[i] as u64)).wrapping_mul(0x100_0000_01b3);
            i = i + 1;
        }
        assert(self.wire@.subrange(0, i as int) =~= self.wire@);
        h
    }

    /// Appends the name to `out`: as a pointer where `refs` holds an earlier
    /// copy that a pointer can reach, else in full, recording where it stands.
    pub fn append_to_vec(&self, out: &mut Vec<u8>, refs: &mut HashMap<u64, usize>)
        ensures
            final(out)@ == old(out)@ + name_emit(self@, old(refs)@),
            final(refs)@ == refs_after(self@, old(refs)@, old(out)@.len() as int),
    {
        broadcast use vstd::std_specs::hash::group_hash_axioms;

        let k = self.key();
        let at = out.len();
        let (known, earlier) = match refs.get(&k) {
            Some(off) => {
                if *off < POINTER_LIMIT {
                    (true, Some(*off))
                } else {
                    (true, None)
                }
            },
            None => (false, None),
        };
        match earlier {
            Some(off) => {
                let mut p = be_u16_bytes((0xC000 + off) as u16);
                out.append(&mut p);
            },
            None => {
                let mut w = copy_range(self.wire.as_slice(), 0, self.wire.len());
                assert(w@ =~= self@);
                out.append(&mut w);
                if !known && at < POINTER_LIMIT {
                    refs.insert(k, at);
                }
            },
        }
    }
}

} // verus!
