use vstd::prelude::*;
use vstd::string::*;

verus! {

/// Index of the first `c` in `s` at or after `from`; the length of `s` when
/// there is none.
pub open spec fn find_from(s: Seq<char>, c: char, from: int) -> int
    decreases s.len() - from,
{
    if from < 0 || from >= s.len() {
        s.len() as int
    } else if s[from] == c {
        from
    } else {
        find_from(s, c, from + 1)
    }
}

/// Where field `k` of `s`, split on `c`, begins; past the end of `s` when
/// `s` holds `k` or fewer fields.
pub open spec fn field_start(s: Seq<char>, c: char, k: nat) -> int
    decreases k,
{
    if k == 0 {
        0
    } else {
        let p = field_start(s, c, (k - 1) as nat);
        if p > s.len() {
            p
        } else {
            find_from(s, c, p) + 1
        }
    }
}

/// Whether splitting `s` on `c` yields a field `k` (counting from 0).
pub open spec fn has_field(s: Seq<char>, c: char, k: nat) -> bool {
    field_start(s, c, k) <= s.len()
}

/// Field `k` of `s` split on `c`, as `str::split` yields it.
pub open spec fn field(s: Seq<char>, c: char, k: nat) -> Seq<char> {
    s.subrange(field_start(s, c, k), find_from(s, c, field_start(s, c, k)))
}

/// `s` with every `c` taken out.
pub open spec fn remove_char(s: Seq<char>, c: char) -> Seq<char>
    decreases s.len(),
{
    if s.len() == 0 {
        s
    } else if s.last() == c {
        remove_char(s.drop_last(), c)
    } else {
        remove_char(s.drop_last(), c).push(s.last())
    }
}

pub proof fn lemma_find_from_bounds(s: Seq<char>, c: char, from: int)
    requires
        0 <= from,
    ensures
        from <= s.len() ==> from <= find_from(s, c, from),
        find_from(s, c, from) <= s.len(),
        find_from(s, c, from) < s.len() ==> s[find_from(s, c, from)] == c,
    decreases s.len() - from,
{
    if from < s.len() && s[from] != c {
        lemma_find_from_bounds(s, c, from + 1);
    }
}

/// When no `c` lies in `s[from..to]`, looking from `from` or from `to` is the same.
pub proof fn lemma_find_from_skip(s: Seq<char>, c: char, from: int, to: int)
    requires
        0 <= from <= to <= s.len(),
        forall|j: int| from <= j < to ==> s[j] != c,
    ensures
        find_from(s, c, from) == find_from(s, c, to),
    decreases to - from,
{
    if from < to {
        lemma_find_from_skip(s, c, from + 1, to);
    }
}

/// Looking for `c` in `a + [c] + b` from a point in `a` that no `c` follows
/// within `a` ends at the separator.
pub proof fn lemma_find_sep(a: Seq<char>, b: Seq<char>, c: char, from: int)
    requires
        0 <= from <= a.len(),
        forall|j: int| from <= j < a.len() ==> a[j] != c,
    ensures
        find_from(a + seq![c] + b, c, from) == a.len(),
{
    let s = a + seq![c] + b;
    assert forall|j: int| from <= j < a.len() implies s[j] != c by {
        assert(s[j] == a[j]);
    }
    lemma_find_from_skip(s, c, from, a.len() as int);
    assert(s[a.len() as int] == c);
}

/// Looking for `c` in `a + b` from a point of `b` is looking in `b`.
pub proof fn lemma_find_shift(a: Seq<char>, b: Seq<char>, c: char, from: int)
    requires
        0 <= from <= b.len(),
    ensures
        find_from(a + b, c, a.len() + from) == a.len() + find_from(b, c, from),
    decreases b.len() - from,
{
    if from < b.len() {
        assert((a + b)[a.len() + from] == b[from]);
        if b[from] != c {
            lemma_find_shift(a, b, c, from + 1);
        }
    }
}

/// Looking for `c` in a sequence that holds none runs to its end.
pub proof fn lemma_find_none(s: Seq<char>, c: char, from: int)
    requires
        0 <= from <= s.len(),
        !s.contains(c),
    ensures
        find_from(s, c, from) == s.len(),
    decreases s.len() - from,
{
    if from < s.len() {
        assert(s[from] != c);
        lemma_find_none(s, c, from + 1);
    }
}

pub proof fn lemma_remove_char_concat(a: Seq<char>, b: Seq<char>, c: char)
    ensures
        remove_char(a + b, c) == remove_char(a, c) + remove_char(b, c),
    decreases b.len(),
{
    if b.len() == 0 {
        assert(a + b =~= a);
        assert(remove_char(a, c) + remove_char(b, c) =~= remove_char(a, c));
    } else {
        lemma_remove_char_concat(a, b.drop_last(), c);
        assert((a + b).drop_last() =~= a + b.drop_last());
        assert((a + b).last() == b.last());
        if b.last() == c {
        } else {
            assert(remove_char(a, c) + remove_char(b.drop_last(), c).push(b.last()) =~= (
            remove_char(a, c) + remove_char(b.drop_last(), c)).push(b.last()));
        }
    }
}

pub proof fn lemma_remove_char_absent(s: Seq<char>, c: char)
    requires
        !s.contains(c),
    ensures
        remove_char(s, c) == s,
    decreases s.len(),
{
    if s.len() > 0 {
        assert(s.last() == s[s.len() - 1]);
        assert(!s.drop_last().contains(c)) by {
            assert forall|j: int| 0 <= j < s.drop_last().len() implies s.drop_last()[j] != c by {
                assert(s.drop_last()[j] == s[j]);
            }
        }
        lemma_remove_char_absent(s.drop_last(), c);
        assert(s.drop_last().push(s.last()) =~= s);
    }
}

/// The characters of `s`, one by one.
pub fn chars_of(s: &str) -> (r: Vec<char>)
    ensures
        r@ == s@,
{
    let n = s.unicode_len();
    let mut v: Vec<char> = Vec::new();
    let mut i: usize = 0;
    while i < n
        invariant
            n == s@.len(),
            i <= n,
            v@ == s@.subrange(0, i as int),
        decreases n - i,
    {
        v.push(s.get_char(i));
        i = i + 1;
        assert(v@ =~= s@.subrange(0, i as int));
    }
    assert(v@ =~= s@);
    v
}

/// Index of the first `c` in `s[from..hi]`; `hi` when there is none.
pub fn find_char(s: &Vec<char>, c: char, from: usize, hi: usize) -> (r: usize)
    requires
        from <= hi <= s@.len(),
    ensures
        r == find_from(s@.subrange(0, hi as int), c, from as int),
        from <= r <= hi,
{
    let ghost t = s@.subrange(0, hi as int);
    let mut i: usize = from;
    while i < hi
        invariant
            from <= i <= hi <= s@.len(),
            t == s@.subrange(0, hi as int),
            find_from(t, c, from as int) == find_from(t, c, i as int),
        decreases hi - i,
    {
        if s[i] == c {
            assert(t[i as int] == c);
            return i;
        }
        assert(t[i as int] != c);
        i = i + 1;
    }
    i
}

/// The characters of `s[lo..hi]` other than `c`, and whether `c` was among them.
pub fn without_char(s: &Vec<char>, c: char, lo: usize, hi: usize) -> (r: (Vec<char>, bool))
    requires
        lo <= hi <= s@.len(),
    ensures
        r.0@ == remove_char(s@.subrange(lo as int, hi as int), c),
        r.1 == s@.subrange(lo as int, hi as int).contains(c),
{
    let mut out: Vec<char> = Vec::new();
    let mut seen = false;
    let mut i: usize = lo;
    assert(s@.subrange(lo as int, lo as int) =~= Seq::<char>::empty());
    while i < hi
        invariant
            lo <= i <= hi <= s@.len(),
            out@ == remove_char(s@.subrange(lo as int, i as int), c),
            seen == s@.subrange(lo as int, i as int).contains(c),
        decreases hi - i,
    {
        let ghost before = s@.subrange(lo as int, i as int);
        let ghost after = s@.subrange(lo as int, i as int + 1);
        assert(after.drop_last() =~= before);
        assert(after.last() == s@[i as int]);
        let x = s[i];
        if x == c {
            seen = true;
            assert(after[i - lo] == c);
        } else {
            out.push(x);
            assert(seen == after.contains(c)) by {
                if after.contains(c) {
                    let j = choose|j: int| 0 <= j < after.len() && after[j] == c;
                    assert(j < before.len());
                    assert(before[j] == c);
                }
                if before.contains(c) {
                    let j = choose|j: int| 0 <= j < before.len() && before[j] == c;
                    assert(after[j] == c);
                }
            }
        }
        i = i + 1;
    }
    (out, seen)
}

} // verus!
