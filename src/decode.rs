//! Lossy decoding of comma-separated sample text.
//!
//! A text column holds samples separated by commas. Each field is trimmed of
//! white space and then parsed by the caller; fields that fail to parse are
//! dropped, and the rest keep their order.
use vstd::prelude::*;
use vstd::std_specs::iter::IteratorSpec;

verus! {

/// The values of the fields that parsed, in their original order.
pub open spec fn kept<T>(s: Seq<Option<T>>) -> Seq<T>
    decreases s.len(),
{
    if s.len() == 0 {
        Seq::empty()
    } else {
        let rest = kept(s.drop_last());
        match s.last() {
            Some(x) => rest.push(x),
            None => rest,
        }
    }
}

/// Dropping failed fields works field by field: the fields kept from two
/// texts laid end to end are those kept from the first followed by those kept
/// from the second, so the survivors keep their order.
pub proof fn lemma_kept_concat<T>(a: Seq<Option<T>>, b: Seq<Option<T>>)
    ensures
        kept(a + b) == kept(a) + kept(b),
    decreases b.len(),
{
    if b.len() == 0 {
        assert(a + b == a);
        assert(kept(a) + kept(b) == kept(a));
    } else {
        lemma_kept_concat(a, b.drop_last());
        assert((a + b).drop_last() == a + b.drop_last());
        assert((a + b).last() == b.last());
        match b.last() {
            Some(x) => {
                assert(kept(a) + kept(b.drop_last()).push(x) == (kept(a) + kept(b.drop_last())).push(
                    x,
                ));
            },
            None => {},
        }
    }
}

/// When every field parses, nothing is dropped.
pub proof fn lemma_kept_all_parsed<T>(s: Seq<Option<T>>)
    requires
        forall|i: int| 0 <= i < s.len() ==> (#[trigger] s[i]) is Some,
    ensures
        kept(s) == s.map_values(|o: Option<T>| o->0),
    decreases s.len(),
{
    if s.len() > 0 {
        let t = s.drop_last();
        assert forall|i: int| 0 <= i < t.len() implies (#[trigger] t[i]) is Some by {
            assert(t[i] == s[i]);
        }
        lemma_kept_all_parsed(t);
        assert(s[s.len() - 1] is Some);
        assert(s.map_values(|o: Option<T>| o->0) =~= t.map_values(|o: Option<T>| o->0).push(
            s.last()->0,
        ));
    } else {
        assert(s.map_values(|o: Option<T>| o->0) =~= Seq::<T>::empty());
    }
}

/// The number of commas in `s`.
pub open spec fn commas(s: Seq<char>) -> nat
    decreases s.len(),
{
    if s.len() == 0 {
        0
    } else {
        commas(s.drop_last()) + if s.last() == ',' {
            1nat
        } else {
            0nat
        }
    }
}

/// The number of fields that parsed.
pub open spec fn parsed_count<T>(s: Seq<Option<T>>) -> nat
    decreases s.len(),
{
    if s.len() == 0 {
        0
    } else {
        parsed_count(s.drop_last()) + if s.last() is Some {
            1nat
        } else {
            0nat
        }
    }
}

proof fn lemma_pieces_count(s: Seq<char>)
    ensures
        pieces(s).len() == commas(s) + 1,
    decreases s.len(),
{
    if s.len() > 0 {
        lemma_pieces_count(s.drop_last());
    }
}

proof fn lemma_kept_count<T>(s: Seq<Option<T>>)
    ensures
        kept(s).len() == parsed_count(s),
        parsed_count(s) <= s.len(),
    decreases s.len(),
{
    if s.len() > 0 {
        lemma_kept_count(s.drop_last());
    }
}

/// Decoding keeps one value for each field of `text` that parsed, and
/// there are as many fields as commas plus one, so no more values than that.
pub proof fn lemma_decode_count<T>(text: Seq<char>, parsed: Seq<Option<T>>)
    requires
        parsed.len() == fields(text).len(),
    ensures
        fields(text).len() == commas(text) + 1,
        kept(parsed).len() == parsed_count(parsed),
        kept(parsed).len() <= commas(text) + 1,
{
    lemma_pieces_count(text);
    lemma_kept_count(parsed);
}

/// Drops every field that failed to parse and keeps the others in order.
pub fn keep_parsed<T: Copy>(parsed: &Vec<Option<T>>) -> (r: Vec<T>)
    ensures
        r@ == kept(parsed@),
{
    let mut r: Vec<T> = Vec::new();
    let mut i: usize = 0;
    while i < parsed.len()
        invariant
            i <= parsed.len(),
            r@ == kept(parsed@.take(i as int)),
        decreases parsed.len() - i,
    {
        let o: Option<T> = parsed[i];
        assert(parsed@.take(i as int + 1).drop_last() == parsed@.take(i as int));
        match o {
            Some(x) => {
                r.push(x);
            },
            None => {},
        }
        i = i + 1;
    }
    assert(parsed@.take(i as int) == parsed@);
    r
}

/// Whether `c` has the Unicode `White_Space` property, the test that
/// `char::is_whitespace` documents.
pub open spec fn white(c: char) -> bool {
    let u = c as u32;
    (0x9 <= u && u <= 0xd) || u == 0x20 || u == 0x85 || u == 0xa0 || u == 0x1680 || (0x2000 <= u
        && u <= 0x200a) || u == 0x2028 || u == 0x2029 || u == 0x202f || u == 0x205f || u == 0x3000
}

/// Executable form of `white`.
pub fn is_white(c: char) -> (r: bool)
    ensures
        r == white(c),
{
    let u = c as u32;
    (0x9 <= u && u <= 0xd) || u == 0x20 || u == 0x85 || u == 0xa0 || u == 0x1680 || (0x2000 <= u
        && u <= 0x200a) || u == 0x2028 || u == 0x2029 || u == 0x202f || u == 0x205f || u == 0x3000
}

/// `s` without its leading white space.
pub open spec fn trim_start(s: Seq<char>) -> Seq<char>
    decreases s.len(),
{
    if s.len() > 0 && white(s[0]) {
        trim_start(s.drop_first())
    } else {
        s
    }
}

/// `s` without its trailing white space.
pub open spec fn trim_end(s: Seq<char>) -> Seq<char>
    decreases s.len(),
{
    if s.len() > 0 && white(s.last()) {
        trim_end(s.drop_last())
    } else {
        s
    }
}

/// `s` without white space at either end.
pub open spec fn trim(s: Seq<char>) -> Seq<char> {
    trim_end(trim_start(s))
}

/// The pieces of `s` between commas, in order; there is always at least one.
pub open spec fn pieces(s: Seq<char>) -> Seq<Seq<char>>
    decreases s.len(),
{
    if s.len() == 0 {
        seq![Seq::empty()]
    } else {
        let p = pieces(s.drop_last());
        if s.last() == ',' {
            p.push(Seq::empty())
        } else {
            p.update(p.len() - 1, p.last().push(s.last()))
        }
    }
}

/// The trimmed fields of a comma-separated text.
pub open spec fn fields(s: Seq<char>) -> Seq<Seq<char>> {
    pieces(s).map_values(|p: Seq<char>| trim(p))
}

proof fn lemma_pieces_len(s: Seq<char>)
    ensures
        pieces(s).len() >= 1,
    decreases s.len(),
{
    if s.len() > 0 {
        lemma_pieces_len(s.drop_last());
    }
}

proof fn lemma_trim_start(s: Seq<char>, a: int)
    requires
        0 <= a <= s.len(),
        forall|k: int| 0 <= k < a ==> white(#[trigger] s[k]),
        a == s.len() || !white(s[a]),
    ensures
        trim_start(s) == s.skip(a),
    decreases a,
{
    if a == 0 {
        assert(s.skip(0) == s);
    } else {
        let t = s.drop_first();
        assert forall|k: int| 0 <= k < a - 1 implies white(#[trigger] t[k]) by {
            assert(t[k] == s[k + 1]);
        }
        if a - 1 < t.len() {
            assert(t[a - 1] == s[a]);
        }
        lemma_trim_start(t, a - 1);
        assert(t.skip(a - 1) == s.skip(a));
    }
}

proof fn lemma_trim_end(s: Seq<char>, b: int)
    requires
        0 <= b <= s.len(),
        forall|k: int| b <= k < s.len() ==> white(#[trigger] s[k]),
        b == 0 || !white(s[b - 1]),
    ensures
        trim_end(s) == s.take(b),
    decreases s.len() - b,
{
    if b == s.len() {
        assert(s.take(b) == s);
    } else {
        let t = s.drop_last();
        assert forall|k: int| b <= k < t.len() implies white(#[trigger] t[k]) by {
            assert(t[k] == s[k]);
        }
        if b > 0 {
            assert(t[b - 1] == s[b - 1]);
        }
        lemma_trim_end(t, b);
        assert(t.take(b) == s.take(b));
    }
}

/// The characters of `s` in order.
fn chars_of(s: &str) -> (r: Vec<char>)
    ensures
        r@ == s@,
{
    broadcast use vstd::string::group_string_axioms;

    let mut it = s.chars();
    let mut r: Vec<char> = Vec::new();
    loop
        invariant
            r@ + it.remaining() == s@,
            it.decrease() is Some,
        ensures
            r@ == s@,
        decreases it.decrease()->0,
    {
        match it.next() {
            Some(c) => {
                r.push(c);
            },
            None => {
                assert(r@ + it.remaining() =~= r@);
                break;
            },
        }
    }
    r
}

/// Relies on collecting characters into a `String`: the same characters in order.
#[verifier::external_body]
fn string_of(cs: &Vec<char>) -> (r: String)
    ensures
        r@ == cs@,
{
    cs.iter().collect()
}

/// The characters of `cs[lo..hi]` without white space at either end.
fn trim_range(cs: &Vec<char>, lo: usize, hi: usize) -> (r: Vec<char>)
    requires
        lo <= hi <= cs.len(),
    ensures
        r@ == trim(cs@.subrange(lo as int, hi as int)),
{
    let ghost s = cs@.subrange(lo as int, hi as int);
    let mut a: usize = lo;
    while a < hi && is_white(cs[a])
        invariant
            lo <= a <= hi <= cs.len(),
            s == cs@.subrange(lo as int, hi as int),
            forall|k: int| 0 <= k < a - lo ==> white(#[trigger] s[k]),
        decreases hi - a,
    {
        a = a + 1;
    }
    proof {
        lemma_trim_start(s, a - lo);
    }
    let ghost t = s.skip(a - lo);
    assert(t == cs@.subrange(a as int, hi as int));
    let mut b: usize = hi;
    while b > a && is_white(cs[b - 1])
        invariant
            lo <= a <= b <= hi <= cs.len(),
            t == cs@.subrange(a as int, hi as int),
            forall|k: int| b - a <= k < t.len() ==> white(#[trigger] t[k]),
        decreases b - a,
    {
        b = b - 1;
    }
    proof {
        lemma_trim_end(t, b - a);
    }
    let mut r: Vec<char> = Vec::new();
    let mut j: usize = a;
    while j < b
        invariant
            a <= j <= b <= cs.len(),
            r@ == cs@.subrange(a as int, j as int),
        decreases b - j,
    {
        r.push(cs[j]);
        j = j + 1;
    }
    assert(r@ == t.take(b - a));
    r
}

/// Splits `text` at every comma and trims white space from each field.
/// Empty text gives one empty field, as `str::split` does.
pub fn split_fields(text: &str) -> (r: Vec<String>)
    ensures
        r@.map_values(|x: String| x@) == fields(text@),
{
    let cs = chars_of(text);
    let ghost s = text@;
    let mut out: Vec<String> = Vec::new();
    let mut start: usize = 0;
    let mut i: usize = 0;
    proof {
        assert(s.take(0) == Seq::<char>::empty());
    }
    while i < cs.len()
        invariant
            cs@ == s,
            start <= i <= cs.len(),
            pieces(s.take(i as int)).len() >= 1,
            pieces(s.take(i as int)).last() == s.subrange(start as int, i as int),
            out@.map_values(|x: String| x@) == pieces(s.take(i as int)).drop_last().map_values(
                |p: Seq<char>| trim(p),
            ),
        decreases cs.len() - i,
    {
        let ghost p = pieces(s.take(i as int));
        assert(s.take(i as int + 1).drop_last() == s.take(i as int));
        if cs[i] == ',' {
            let f = trim_range(&cs, start, i);
            let fs = string_of(&f);
            let ghost before = out@;
            out.push(fs);
            start = i + 1;
            assert(out@.map_values(|x: String| x@) =~= before.map_values(|x: String| x@).push(
                trim(p.last()),
            ));
            assert(pieces(s.take(i as int + 1)) == p.push(Seq::empty()));
            assert(pieces(s.take(i as int + 1)).drop_last() == p);
            assert(p == p.drop_last().push(p.last()));
            assert(out@.map_values(|x: String| x@) =~= p.map_values(|q: Seq<char>| trim(q)));
            assert(s.subrange(start as int, i as int + 1) == Seq::<char>::empty());
        } else {
            assert(s.subrange(start as int, i as int + 1) == s.subrange(start as int, i as int).push(
                s[i as int],
            ));
            assert(pieces(s.take(i as int + 1)).drop_last() == p.drop_last());
        }
        i = i + 1;
    }
    let f = trim_range(&cs, start, i);
    let fs = string_of(&f);
    let ghost before = out@;
    out.push(fs);
    proof {
        let p = pieces(s.take(i as int));
        assert(s.take(i as int) == s);
        assert(p == p.drop_last().push(p.last()));
        assert(out@.map_values(|x: String| x@) =~= before.map_values(|x: String| x@).push(
            trim(p.last()),
        ));
        assert(out@.map_values(|x: String| x@) =~= p.map_values(|q: Seq<char>| trim(q)));
    }
    out
}

} // verus!
