//! HTTP responses: a status line, a header mapping with unique keys kept in
//! lexicographic order by name, and a body.

use vstd::prelude::*;

verus! {

use vstd::string::StringSliceAdditionalSpecFns;
use vstd::utf8::encode_utf8;

/// Strict lexicographic order on byte sequences.
pub open spec fn lex_lt(a: Seq<u8>, b: Seq<u8>) -> bool
    decreases a.len(),
{
    if b.len() == 0 {
        false
    } else if a.len() == 0 {
        true
    } else if a[0] < b[0] {
        true
    } else if a[0] > b[0] {
        false
    } else {
        lex_lt(a.drop_first(), b.drop_first())
    }
}

pub proof fn lemma_lex_lt_irreflexive(a: Seq<u8>)
    ensures
        !lex_lt(a, a),
    decreases a.len(),
{
    if a.len() > 0 {
        lemma_lex_lt_irreflexive(a.drop_first());
    }
}

pub proof fn lemma_lex_lt_transitive(a: Seq<u8>, b: Seq<u8>, c: Seq<u8>)
    requires
        lex_lt(a, b),
        lex_lt(b, c),
    ensures
        lex_lt(a, c),
    decreases a.len(),
{
    if a.len() > 0 && b.len() > 0 && c.len() > 0 && a[0] == b[0] && b[0] == c[0] {
        lemma_lex_lt_transitive(a.drop_first(), b.drop_first(), c.drop_first());
    }
}

pub proof fn lemma_lex_lt_asymmetric(a: Seq<u8>, b: Seq<u8>)
    requires
        lex_lt(a, b),
    ensures
        !lex_lt(b, a),
{
    if lex_lt(b, a) {
        lemma_lex_lt_transitive(a, b, a);
        lemma_lex_lt_irreflexive(a);
    }
}

/// Exactly one of `lex_lt(a, b)`, `lex_lt(b, a)`, `a == b` holds.
pub proof fn lemma_lex_lt_connected(a: Seq<u8>, b: Seq<u8>)
    ensures
        lex_lt(a, b) || lex_lt(b, a) || a == b,
    decreases a.len(),
{
    if a.len() == 0 && b.len() == 0 {
        assert(a =~= b);
    } else if a.len() > 0 && b.len() > 0 && a[0] == b[0] {
        lemma_lex_lt_connected(a.drop_first(), b.drop_first());
        if !lex_lt(a, b) && !lex_lt(b, a) {
            assert(a.drop_first() == b.drop_first());
            assert forall|i: int| 0 <= i < a.len() implies a[i] == b[i] by {
                if i > 0 {
                    assert(a[i] == a.drop_first()[i - 1]);
                    assert(b[i] == b.drop_first()[i - 1]);
                }
            }
            assert(a =~= b);
        }
    }
}

/// Distinct character sequences have distinct UTF-8 encodings.
pub proof fn lemma_encode_utf8_injective(a: Seq<char>, b: Seq<char>)
    requires
        encode_utf8(a) == encode_utf8(b),
    ensures
        a == b,
{
    vstd::utf8::encode_utf8_decode_utf8(a);
    vstd::utf8::encode_utf8_decode_utf8(b);
}

/// Of two distinct header names, one sorts strictly before the other.
pub proof fn lemma_header_name_lt_connected(a: Seq<char>, b: Seq<char>)
    ensures
        header_name_lt(a, b) || header_name_lt(b, a) || a == b,
{
    lemma_lex_lt_connected(encode_utf8(a), encode_utf8(b));
    if encode_utf8(a) == encode_utf8(b) {
        lemma_encode_utf8_injective(a, b);
    }
}

/// Header names are ordered by the lexicographic order of their UTF-8 bytes.
pub open spec fn header_name_lt(a: Seq<char>, b: Seq<char>) -> bool {
    lex_lt(encode_utf8(a), encode_utf8(b))
}

/// Whether `a` sorts strictly before `b`, comparing UTF-8 bytes
/// lexicographically.
pub fn str_lt(a: &str, b: &str) -> (r: bool)
    ensures
        r == lex_lt(a.spec_bytes(), b.spec_bytes()),
{
    let ab = a.as_bytes();
    let bb = b.as_bytes();
    let na = ab.len();
    let nb = bb.len();
    proof {
        assert(ab@.skip(0) =~= ab@);
        assert(bb@.skip(0) =~= bb@);
    }
    let mut i: usize = 0;
    let mut res: bool = false;
    loop
        invariant_except_break
            i <= na <= ab@.len(),
            i <= nb <= bb@.len(),
            na == ab@.len(),
            nb == bb@.len(),
            ab@ == a.spec_bytes(),
            bb@ == b.spec_bytes(),
            lex_lt(ab@, bb@) == lex_lt(ab@.skip(i as int), bb@.skip(i as int)),
        ensures
            res == lex_lt(a.spec_bytes(), b.spec_bytes()),
        decreases na - i,
    {
        if i == na || i == nb {
            proof {
                if i == na && i < nb {
                    assert(bb@.skip(i as int).len() > 0);
                    assert(lex_lt(ab@.skip(i as int), bb@.skip(i as int)));
                } else if i == nb {
                    assert(bb@.skip(i as int).len() == 0);
                    assert(!lex_lt(ab@.skip(i as int), bb@.skip(i as int)));
                }
            }
            res = na < nb;
            break ;
        }
        let x = ab[i];
        let y = bb[i];
        proof {
            assert(ab@.skip(i as int)[0] == ab@[i as int]);
            assert(bb@.skip(i as int)[0] == bb@[i as int]);
        }
        if x < y {
            res = true;
            break ;
        }
        if x > y {
            res = false;
            break ;
        }
        proof {
            assert(ab@.skip(i as int).drop_first() =~= ab@.skip(i + 1));
            assert(bb@.skip(i as int).drop_first() =~= bb@.skip(i + 1));
        }
        i = i + 1;
    }
    res
}

/// The header mapping after setting `name` to `value`: an existing entry of
/// the same name is replaced in place, a new one is inserted at its sorted
/// position.
pub open spec fn spec_header_insert(
    hs: Seq<(Seq<char>, Seq<char>)>,
    name: Seq<char>,
    value: Seq<char>,
) -> Seq<(Seq<char>, Seq<char>)>
    decreases hs.len(),
{
    if hs.len() == 0 {
        seq![(name, value)]
    } else if header_name_lt(name, hs[0].0) {
        seq![(name, value)] + hs
    } else if name == hs[0].0 {
        seq![(name, value)] + hs.drop_first()
    } else {
        seq![hs[0]] + spec_header_insert(hs.drop_first(), name, value)
    }
}

/// Whether the header names are strictly sorted (hence unique).
pub open spec fn headers_sorted(hs: Seq<(Seq<char>, Seq<char>)>) -> bool {
    forall|i: int, j: int|
        0 <= i < j < hs.len() ==> header_name_lt(#[trigger] hs[i].0, #[trigger] hs[j].0)
}

proof fn lemma_insert_at(
    hs: Seq<(Seq<char>, Seq<char>)>,
    name: Seq<char>,
    value: Seq<char>,
    i: int,
)
    requires
        0 <= i <= hs.len(),
        forall|k: int| 0 <= k < i ==> header_name_lt(#[trigger] hs[k].0, name),
        i < hs.len() ==> header_name_lt(name, hs[i].0),
    ensures
        spec_header_insert(hs, name, value) == hs.take(i) + seq![(name, value)] + hs.skip(i),
    decreases i,
{
    if i == 0 {
        if hs.len() == 0 {
            assert(spec_header_insert(hs, name, value) =~= hs.take(0) + seq![(name, value)]
                + hs.skip(0));
        } else {
            assert(spec_header_insert(hs, name, value) =~= hs.take(0) + seq![(name, value)]
                + hs.skip(0));
        }
    } else {
        assert(header_name_lt(hs[0].0, name));
        lemma_lex_lt_asymmetric(encode_utf8(hs[0].0), encode_utf8(name));
        lemma_lex_lt_irreflexive(encode_utf8(name));
        assert(name != hs[0].0);
        let tail = hs.drop_first();
        assert(forall|k: int| 0 <= k < i - 1 ==> header_name_lt(#[trigger] tail[k].0, name));
        lemma_insert_at(tail, name, value, i - 1);
        assert(spec_header_insert(hs, name, value) =~= hs.take(i) + seq![(name, value)] + hs.skip(
            i,
        ));
    }
}

proof fn lemma_replace_at(
    hs: Seq<(Seq<char>, Seq<char>)>,
    name: Seq<char>,
    value: Seq<char>,
    i: int,
)
    requires
        0 <= i < hs.len(),
        forall|k: int| 0 <= k < i ==> header_name_lt(#[trigger] hs[k].0, name),
        hs[i].0 == name,
    ensures
        spec_header_insert(hs, name, value) == hs.take(i) + seq![(name, value)] + hs.skip(i + 1),
    decreases i,
{
    if i == 0 {
        lemma_lex_lt_irreflexive(encode_utf8(name));
        assert(!header_name_lt(name, hs[0].0));
        assert(spec_header_insert(hs, name, value) =~= hs.take(0) + seq![(name, value)] + hs.skip(
            1,
        ));
    } else {
        assert(header_name_lt(hs[0].0, name));
        lemma_lex_lt_asymmetric(encode_utf8(hs[0].0), encode_utf8(name));
        lemma_lex_lt_irreflexive(encode_utf8(name));
        assert(name != hs[0].0);
        let tail = hs.drop_first();
        assert(forall|k: int| 0 <= k < i - 1 ==> header_name_lt(#[trigger] tail[k].0, name));
        assert(tail[i - 1].0 == name);
        lemma_replace_at(tail, name, value, i - 1);
        assert(spec_header_insert(hs, name, value) =~= hs.take(i) + seq![(name, value)] + hs.skip(
            i + 1,
        ));
    }
}

/// Setting a header keeps the mapping strictly sorted.
pub proof fn lemma_header_insert_sorted(
    hs: Seq<(Seq<char>, Seq<char>)>,
    name: Seq<char>,
    value: Seq<char>,
)
    requires
        headers_sorted(hs),
    ensures
        headers_sorted(spec_header_insert(hs, name, value)),
    decreases hs.len(),
{
    if hs.len() == 0 {
    } else if header_name_lt(name, hs[0].0) {
        let out = seq![(name, value)] + hs;
        assert forall|i: int, j: int| 0 <= i < j < out.len() implies header_name_lt(
            #[trigger] out[i].0,
            #[trigger] out[j].0,
        ) by {
            if i == 0 {
                if j > 1 {
                    lemma_lex_lt_transitive(
                        encode_utf8(name),
                        encode_utf8(hs[0].0),
                        encode_utf8(hs[j - 1].0),
                    );
                }
            }
        }
    } else if name == hs[0].0 {
        let out = seq![(name, value)] + hs.drop_first();
        assert forall|i: int, j: int| 0 <= i < j < out.len() implies header_name_lt(
            #[trigger] out[i].0,
            #[trigger] out[j].0,
        ) by {
            if i == 0 {
                assert(out[j].0 == hs[j].0);
                assert(header_name_lt(hs[0].0, hs[j].0));
            } else {
                assert(out[i].0 == hs[i].0 && out[j].0 == hs[j].0);
            }
        }
    } else {
        let tail = hs.drop_first();
        lemma_header_insert_sorted(tail, name, value);
        lemma_header_name_lt_connected(name, hs[0].0);
        assert(header_name_lt(hs[0].0, name));
        let ins = spec_header_insert(tail, name, value);
        let out = seq![hs[0]] + ins;
        lemma_header_insert_names(tail, name, value);
        assert forall|i: int, j: int| 0 <= i < j < out.len() implies header_name_lt(
            #[trigger] out[i].0,
            #[trigger] out[j].0,
        ) by {
            if i == 0 {
                assert(ins[j - 1].0 == name || exists|k: int|
                    0 <= k < tail.len() && ins[j - 1].0 == #[trigger] tail[k].0);
                if ins[j - 1].0 == name {
                } else {
                    let k = choose|k: int|
                        0 <= k < tail.len() && ins[j - 1].0 == #[trigger] tail[k].0;
                    assert(header_name_lt(hs[0].0, hs[k + 1].0));
                }
            }
        }
    }
}

/// Every name in the inserted mapping is the new name or one already there.
proof fn lemma_header_insert_names(
    hs: Seq<(Seq<char>, Seq<char>)>,
    name: Seq<char>,
    value: Seq<char>,
)
    ensures
        forall|j: int|
            0 <= j < spec_header_insert(hs, name, value).len() ==> (#[trigger] spec_header_insert(
                hs,
                name,
                value,
            )[j].0 == name || exists|k: int|
                0 <= k < hs.len() && spec_header_insert(hs, name, value)[j].0
                    == #[trigger] hs[k].0),
    decreases hs.len(),
{
    let out = spec_header_insert(hs, name, value);
    if hs.len() == 0 {
    } else if header_name_lt(name, hs[0].0) {
        assert forall|j: int| 0 <= j < out.len() implies (#[trigger] out[j].0 == name || exists|
            k: int,
        |
            0 <= k < hs.len() && out[j].0 == #[trigger] hs[k].0) by {
            if j > 0 {
                assert(out[j].0 == hs[j - 1].0);
            }
        }
    } else if name == hs[0].0 {
        assert forall|j: int| 0 <= j < out.len() implies (#[trigger] out[j].0 == name || exists|
            k: int,
        |
            0 <= k < hs.len() && out[j].0 == #[trigger] hs[k].0) by {
            if j > 0 {
                assert(out[j].0 == hs[j].0);
            }
        }
    } else {
        let tail = hs.drop_first();
        lemma_header_insert_names(tail, name, value);
        let ins = spec_header_insert(tail, name, value);
        assert forall|j: int| 0 <= j < out.len() implies (#[trigger] out[j].0 == name || exists|
            k: int,
        |
            0 <= k < hs.len() && out[j].0 == #[trigger] hs[k].0) by {
            if j == 0 {
                assert(out[0].0 == hs[0].0);
            } else {
                assert(out[j].0 == ins[j - 1].0);
                if ins[j - 1].0 != name {
                    let k = choose|k: int|
                        0 <= k < tail.len() && ins[j - 1].0 == #[trigger] tail[k].0;
                    assert(out[j].0 == hs[k + 1].0);
                }
            }
        }
    }
}

/// A mapping of header names to values, kept strictly sorted by the
/// lexicographic order of the names' UTF-8 bytes, so names are unique and
/// serialization order is deterministic.
#[derive(Debug)]
pub struct Headers {
    entries: Vec<(String, String)>,
}

impl View for Headers {
    type V = Seq<(Seq<char>, Seq<char>)>;

    closed spec fn view(&self) -> Seq<(Seq<char>, Seq<char>)> {
        Seq::new(self.entries@.len(), |i: int| (self.entries@[i].0@, self.entries@[i].1@))
    }
}

impl Headers {
    /// An empty mapping.
    pub fn new() -> (h: Headers)
        ensures
            h@ == Seq::<(Seq<char>, Seq<char>)>::empty(),
    {
        let h = Headers { entries: Vec::new() };
        proof {
            assert(h@ =~= Seq::<(Seq<char>, Seq<char>)>::empty());
        }
        h
    }

    /// How many headers are set.
    pub fn len(&self) -> (n: usize)
        ensures
            n == self@.len(),
    {
        self.entries.len()
    }

    /// The name and value at `i`, in serialization order.
    pub fn pair_at(&self, i: usize) -> (r: &(String, String))
        requires
            i < self@.len(),
        ensures
            r.0@ == self@[i as int].0,
            r.1@ == self@[i as int].1,
    {
        &self.entries[i]
    }

    /// Sets `name` to `value`, replacing any entry of that name and keeping
    /// the mapping sorted.
    pub fn insert(&mut self, name: String, value: String)
        ensures
            final(self)@ == spec_header_insert(old(self)@, name@, value@),
            headers_sorted(old(self)@) ==> headers_sorted(final(self)@),
    {
        let n = self.entries.len();
        let mut i: usize = 0;
        let mut replace: bool = false;
        loop
            invariant_except_break
                *self == *old(self),
                n == self.entries@.len(),
                i <= n,
                !replace,
                forall|k: int| 0 <= k < i ==> header_name_lt(#[trigger] old(self)@[k].0, name@),
            ensures
                *self == *old(self),
                n == self.entries@.len(),
                i <= n,
                forall|k: int| 0 <= k < i ==> header_name_lt(#[trigger] old(self)@[k].0, name@),
                replace ==> i < n && old(self)@[i as int].0 == name@,
                !replace ==> (i < n ==> header_name_lt(name@, old(self)@[i as int].0)),
            decreases n - i,
        {
            if i == n {
                break ;
            }
            let cur = &self.entries[i];
            if name == cur.0 {
                replace = true;
                break ;
            }
            if str_lt(name.as_str(), cur.0.as_str()) {
                break ;
            }
            proof {
                lemma_header_name_lt_connected(name@, cur.0@);
            }
            i = i + 1;
        }
        let ghost oldv = self@;
        if replace {
            self.entries.remove(i);
            self.entries.insert(i, (name, value));
            proof {
                lemma_replace_at(oldv, name@, value@, i as int);
                assert(self@ =~= oldv.take(i as int) + seq![(name@, value@)] + oldv.skip(
                    i as int + 1,
                ));
            }
        } else {
            self.entries.insert(i, (name, value));
            proof {
                lemma_insert_at(oldv, name@, value@, i as int);
                assert(self@ =~= oldv.take(i as int) + seq![(name@, value@)] + oldv.skip(i as int));
            }
        }
        proof {
            if headers_sorted(oldv) {
                lemma_header_insert_sorted(oldv, name@, value@);
            }
        }
    }
}

/// One HTTP response: status code, reason phrase, headers, body.
#[derive(Debug)]
pub struct Response {
    pub headers: Headers,
    pub body: Vec<u8>,
    pub status: u16,
    pub reason: String,
}

} // verus!
