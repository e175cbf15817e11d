use std::cmp::Ordering;
use vstd::prelude::*;
use vstd::std_specs::cmp::{PartialEqSpec, PartialOrdIs, PartialOrdSpec};

use crate::decimal::{decimal, lemma_decimal_plain, lemma_parse_decimal};
use crate::fields::{
    field, field_start, find_from, has_field, lemma_find_from_bounds, lemma_find_none,
    lemma_find_sep, lemma_find_shift, lemma_remove_char_absent, lemma_remove_char_concat,
    remove_char,
};
use crate::version::{
    bump_major, bump_minor, bump_patch, compare, core_of, core_version, parse_spec, render,
    same_number, DwVersion, VersionView,
};

verus! {

proof fn lemma_absent_concat(a: Seq<char>, b: Seq<char>, c: char)
    requires
        !a.contains(c),
        !b.contains(c),
    ensures
        !(a + b).contains(c),
{
    assert forall|j: int| 0 <= j < (a + b).len() implies (a + b)[j] != c by {
        if j < a.len() {
            assert((a + b)[j] == a[j]);
        } else {
            assert((a + b)[j] == b[j - a.len()]);
        }
    }
}

/// A sequence without `c` is a single field.
proof fn lemma_single_field(s: Seq<char>, c: char)
    requires
        !s.contains(c),
    ensures
        has_field(s, c, 0),
        field(s, c, 0) == s,
        !has_field(s, c, 1),
{
    lemma_find_none(s, c, 0);
    assert(field_start(s, c, 0) == 0);
    assert(s.subrange(0, s.len() as int) =~= s);
    assert(field_start(s, c, 1) == s.len() + 1);
}

/// In `a + [c] + b` with no `c` in `a`, the first field is `a`.
proof fn lemma_first_field(a: Seq<char>, b: Seq<char>, c: char)
    requires
        !a.contains(c),
    ensures
        has_field(a + seq![c] + b, c, 0),
        field(a + seq![c] + b, c, 0) == a,
{
    let s = a + seq![c] + b;
    lemma_find_sep(a, b, c, 0);
    assert(field_start(s, c, 0) == 0);
    assert(s.subrange(0, a.len() as int) =~= a);
}

/// In `a + [c] + b` with no `c` in `a`, field `k + 1` is field `k` of `b`.
proof fn lemma_fields_after_sep(a: Seq<char>, b: Seq<char>, c: char, k: nat)
    requires
        !a.contains(c),
    ensures
        field_start(a + seq![c] + b, c, k + 1) == a.len() + 1 + field_start(b, c, k),
        has_field(a + seq![c] + b, c, k + 1) == has_field(b, c, k),
        has_field(b, c, k) ==> field(a + seq![c] + b, c, k + 1) == field(b, c, k),
    decreases k,
{
    let s = a + seq![c] + b;
    let pre = a + seq![c];
    assert(s == pre + b);
    if k == 0 {
        lemma_find_sep(a, b, c, 0);
        assert(field_start(s, c, 0) == 0);
        assert(field_start(s, c, 1) == a.len() + 1);
        assert(field_start(b, c, 0) == 0);
    } else {
        lemma_fields_after_sep(a, b, c, (k - 1) as nat);
        let q = field_start(b, c, (k - 1) as nat);
        lemma_field_start_nonneg(b, c, (k - 1) as nat);
        if q <= b.len() {
            lemma_find_shift(pre, b, c, q);
        }
    }
    let q = field_start(b, c, k);
    lemma_field_start_nonneg(b, c, k);
    if q <= b.len() {
        lemma_find_shift(pre, b, c, q);
        lemma_find_from_bounds(b, c, q);
        assert(s.subrange(a.len() + 1 + q, a.len() + 1 + find_from(b, c, q)) =~= b.subrange(
            q,
            find_from(b, c, q),
        ));
    }
}

/// No `c` stands between `from` and the next `c`.
proof fn lemma_field_no_sep(s: Seq<char>, c: char, from: int, j: int)
    requires
        0 <= from <= j < find_from(s, c, from),
    ensures
        s[j] != c,
    decreases j - from,
{
    if j > from {
        assert(s[from] != c);
        lemma_field_no_sep(s, c, from + 1, j);
    } else {
        assert(s[from] != c);
    }
}

/// A field holds no separator.
proof fn lemma_field_plain(s: Seq<char>, c: char, k: nat)
    requires
        has_field(s, c, k),
    ensures
        !field(s, c, k).contains(c),
{
    let st = field_start(s, c, k);
    assert(st >= 0) by {
        lemma_field_start_nonneg(s, c, k);
    }
    lemma_find_from_bounds(s, c, st);
    assert forall|j: int| 0 <= j < field(s, c, k).len() implies field(s, c, k)[j] != c by {
        lemma_field_no_sep(s, c, st, st + j);
    }
}

proof fn lemma_field_start_nonneg(s: Seq<char>, c: char, k: nat)
    ensures
        field_start(s, c, k) >= 0,
    decreases k,
{
    if k > 0 {
        lemma_field_start_nonneg(s, c, (k - 1) as nat);
        let p = field_start(s, c, (k - 1) as nat);
        if p <= s.len() {
            lemma_find_from_bounds(s, c, p);
        }
    }
}

/// What `parse` yields can be written back: a label comes only with a build,
/// and holds no `_`.
pub open spec fn writable(v: VersionView) -> bool {
    &&& v.pre is Some ==> v.build is Some
    &&& v.pre is Some ==> !v.pre->0.contains('_')
}

proof fn lemma_parse_writable(s: Seq<char>)
    requires
        parse_spec(s) is Some,
    ensures
        writable(parse_spec(s)->0),
{
    if has_field(s, '_', 2) {
        lemma_field_plain(s, '_', 2);
    }
}

/// The numeric core of `render(v)` reads back as `v`'s numbers.
proof fn lemma_core_reads_back(v: VersionView)
    ensures
        core_version(
            (if v.has_prefix {
                seq!['v']
            } else {
                Seq::empty()
            }) + decimal(v.major as nat) + seq!['.'] + decimal(v.minor as nat) + seq!['.']
                + decimal(v.patch as nat),
        ) == (VersionView { pre: None, build: None, ..v }),
{
    let p: Seq<char> = if v.has_prefix {
        seq!['v']
    } else {
        Seq::empty()
    };
    let dmaj = decimal(v.major as nat);
    let dmin = decimal(v.minor as nat);
    let dpat = decimal(v.patch as nat);
    lemma_decimal_plain(v.major as nat);
    lemma_decimal_plain(v.minor as nat);
    lemma_decimal_plain(v.patch as nat);
    let head = p + dmaj;
    let rest = dmin + seq!['.'] + dpat;
    let core = p + dmaj + seq!['.'] + dmin + seq!['.'] + dpat;
    assert(core =~= head + seq!['.'] + rest);
    assert(!p.contains('.'));
    assert(!p.contains('_'));
    lemma_absent_concat(p, dmaj, '.');
    lemma_first_field(head, rest, '.');
    lemma_fields_after_sep(head, rest, '.', 0);
    lemma_fields_after_sep(head, rest, '.', 1);
    lemma_first_field(dmin, dpat, '.');
    lemma_fields_after_sep(dmin, dpat, '.', 0);
    lemma_single_field(dpat, '.');
    // the prefix and the major number
    lemma_remove_char_concat(p, dmaj, 'v');
    lemma_remove_char_absent(dmaj, 'v');
    if v.has_prefix {
        assert(remove_char(p, 'v') =~= Seq::<char>::empty()) by {
            assert(p.drop_last() =~= Seq::<char>::empty());
            assert(p.last() == 'v');
            assert(remove_char(p.drop_last(), 'v') =~= Seq::<char>::empty());
        }
        assert(head[0] == 'v');
        assert(head.contains('v'));
    } else {
        assert(remove_char(p, 'v') == p);
        assert(head =~= dmaj);
    }
    assert(remove_char(head, 'v') =~= dmaj);
    lemma_parse_decimal(v.major);
    lemma_parse_decimal(v.minor);
    lemma_parse_decimal(v.patch);
}

/// Writing a version out and reading it back gives the same version, on
/// every field, whenever its label comes with a build and holds no `_`.
pub proof fn lemma_render_parse(v: VersionView)
    requires
        writable(v),
    ensures
        parse_spec(render(v)) == Some(v),
{
    let p: Seq<char> = if v.has_prefix {
        seq!['v']
    } else {
        Seq::empty()
    };
    let core = p + decimal(v.major as nat) + seq!['.'] + decimal(v.minor as nat) + seq!['.']
        + decimal(v.patch as nat);
    lemma_core_reads_back(v);
    lemma_decimal_plain(v.major as nat);
    lemma_decimal_plain(v.minor as nat);
    lemma_decimal_plain(v.patch as nat);
    assert(!p.contains('_'));
    assert(!seq!['.'].contains('_'));
    lemma_absent_concat(p, decimal(v.major as nat), '_');
    lemma_absent_concat(p + decimal(v.major as nat), seq!['.'], '_');
    lemma_absent_concat(p + decimal(v.major as nat) + seq!['.'], decimal(v.minor as nat), '_');
    lemma_absent_concat(
        p + decimal(v.major as nat) + seq!['.'] + decimal(v.minor as nat),
        seq!['.'],
        '_',
    );
    lemma_absent_concat(
        p + decimal(v.major as nat) + seq!['.'] + decimal(v.minor as nat) + seq!['.'],
        decimal(v.patch as nat),
        '_',
    );
    assert(!core.contains('_'));
    let r = render(v);
    match v.build {
        None => {
            assert(r =~= core);
            lemma_single_field(core, '_');
        },
        Some(b) => {
            let db = decimal(b as nat);
            lemma_decimal_plain(b as nat);
            lemma_parse_decimal(b);
            match v.pre {
                None => {
                    assert(r =~= core + seq!['_'] + db);
                    lemma_first_field(core, db, '_');
                    lemma_fields_after_sep(core, db, '_', 0);
                    lemma_fields_after_sep(core, db, '_', 1);
                    lemma_single_field(db, '_');
                },
                Some(l) => {
                    let rest = db + seq!['_'] + l;
                    assert(r =~= core + seq!['_'] + rest);
                    lemma_first_field(core, rest, '_');
                    lemma_fields_after_sep(core, rest, '_', 0);
                    lemma_fields_after_sep(core, rest, '_', 1);
                    lemma_first_field(db, l, '_');
                    lemma_fields_after_sep(db, l, '_', 0);
                    lemma_single_field(l, '_');
                },
            }
        },
    }
    assert(core_of(r) == core);
}

/// Reading a text, writing the version out and reading that again gives the
/// same version, on every field.
pub proof fn lemma_round_trip(s: Seq<char>)
    requires
        parse_spec(s) is Some,
    ensures
        parse_spec(render(parse_spec(s)->0)) == parse_spec(s),
{
    lemma_parse_writable(s);
    lemma_render_parse(parse_spec(s)->0);
}

/// Versions with the same major, minor and patch are equal and neither comes
/// before the other, whatever their labels and builds.
pub proof fn lemma_metadata_ignored(a: DwVersion, b: DwVersion)
    requires
        same_number(a@, b@),
    ensures
        a.eq_spec(&b),
        compare(a@, b@) == Ordering::Equal,
        a.partial_cmp_spec(&b) == Some(Ordering::Equal),
        !a.is_lt(&b),
        !a.is_gt(&b),
{
}

/// Each bump gives a version that comes after the one it started from.
pub proof fn lemma_bumps_increase(v: VersionView)
    ensures
        v.major < u64::MAX ==> compare(bump_major(v), v) == Ordering::Greater,
        v.minor < u64::MAX ==> compare(bump_minor(v), v) == Ordering::Greater,
        v.patch < u64::MAX ==> compare(bump_patch(v), v) == Ordering::Greater,
{
}

} // verus!
