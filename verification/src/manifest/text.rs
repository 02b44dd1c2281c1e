//! Text-level building blocks: lexicographic order on character sequences,
//! whitespace trimming, sorting of rendered dependency strings, and the
//! derivation of the environment indicator name of a feature.

use vstd::prelude::*;
use vstd::relations::sorted_by;
use vstd::relations::total_ordering;
use vstd::seq_lib::group_to_multiset_ensures;
use vstd::string::StrSliceExecFns;
use vstd::string::StringExecFns;

verus! {

/// Lexicographic order on character sequences, by code point.
pub open spec fn lex_leq(a: Seq<char>, b: Seq<char>) -> bool
    decreases a.len(),
{
    if a.len() == 0 {
        true
    } else if b.len() == 0 {
        false
    } else if a[0] == b[0] {
        lex_leq(a.skip(1), b.skip(1))
    } else {
        (a[0] as u32) < (b[0] as u32)
    }
}

/// The views of a sequence of strings.
pub open spec fn views_of(v: Seq<String>) -> Seq<Seq<char>> {
    v.map_values(|s: String| s@)
}

/// The lexicographic order as a relation value.
pub open spec fn lex_leq_fn() -> spec_fn(Seq<char>, Seq<char>) -> bool {
    |a: Seq<char>, b: Seq<char>| lex_leq(a, b)
}

/// Whether a sequence of rendered strings is in lexicographic order.
pub open spec fn lex_sorted(s: Seq<Seq<char>>) -> bool {
    sorted_by(s, lex_leq_fn())
}

pub proof fn lemma_lex_refl(a: Seq<char>)
    ensures
        lex_leq(a, a),
    decreases a.len(),
{
    if a.len() > 0 {
        lemma_lex_refl(a.skip(1));
    }
}

pub proof fn lemma_lex_antisym(a: Seq<char>, b: Seq<char>)
    requires
        lex_leq(a, b),
        lex_leq(b, a),
    ensures
        a == b,
    decreases a.len(),
{
    if a.len() == 0 {
        assert(b.len() == 0);
        assert(a =~= b);
    } else {
        assert(a[0] == b[0]);
        lemma_lex_antisym(a.skip(1), b.skip(1));
        assert(a.skip(1).len() == a.len() - 1);
        assert(b.skip(1).len() == b.len() - 1);
        assert(a.len() == b.len());
        assert forall|i: int| 0 <= i < a.len() implies a[i] == b[i] by {
            if i > 0 {
                assert(a.skip(1)[i - 1] == a[i]);
                assert(b.skip(1)[i - 1] == b[i]);
            }
        }
        assert(a =~= b);
    }
}

pub proof fn lemma_lex_trans(a: Seq<char>, b: Seq<char>, c: Seq<char>)
    requires
        lex_leq(a, b),
        lex_leq(b, c),
    ensures
        lex_leq(a, c),
    decreases a.len(),
{
    if a.len() == 0 || b.len() == 0 || c.len() == 0 {
    } else {
        if a[0] == b[0] && b[0] == c[0] {
            lemma_lex_trans(a.skip(1), b.skip(1), c.skip(1));
        }
    }
}

pub proof fn lemma_lex_connected(a: Seq<char>, b: Seq<char>)
    ensures
        lex_leq(a, b) || lex_leq(b, a),
    decreases a.len(),
{
    if a.len() == 0 || b.len() == 0 {
    } else if a[0] == b[0] {
        lemma_lex_connected(a.skip(1), b.skip(1));
    } else {
        assert((a[0] as u32) != (b[0] as u32)) by {
            vstd::utf8::char_u32_cast(a[0], a[0] as u32);
            vstd::utf8::char_u32_cast(b[0], b[0] as u32);
        }
    }
}

/// Lexicographic order is a total ordering on character sequences.
pub proof fn lemma_lex_total_ordering()
    ensures
        total_ordering(lex_leq_fn()),
{
    let leq = lex_leq_fn();
    assert forall|a: Seq<char>| #[trigger] leq(a, a) by {
        lemma_lex_refl(a);
    }
    assert forall|a: Seq<char>, b: Seq<char>| #[trigger] leq(a, b) && #[trigger] leq(b, a)
        implies a == b by {
        lemma_lex_antisym(a, b);
    }
    assert forall|a: Seq<char>, b: Seq<char>, c: Seq<char>|
        #[trigger] leq(a, b) && #[trigger] leq(b, c) implies leq(a, c) by {
        lemma_lex_trans(a, b, c);
    }
    assert forall|a: Seq<char>, b: Seq<char>| #[trigger] leq(a, b) || #[trigger] leq(b, a) by {
        lemma_lex_connected(a, b);
    }
}

/// Compares two strings in lexicographic order by code point.
pub fn str_le(a: &str, b: &str) -> (r: bool)
    ensures
        r == lex_leq(a@, b@),
{
    let na = a.unicode_len();
    let nb = b.unicode_len();
    let mut i: usize = 0;
    proof {
        assert(a@.skip(0) =~= a@);
        assert(b@.skip(0) =~= b@);
    }
    loop
        invariant
            i <= na,
            i <= nb,
            na == a@.len(),
            nb == b@.len(),
            lex_leq(a@, b@) == lex_leq(a@.skip(i as int), b@.skip(i as int)),
        decreases na - i,
    {
        proof {
            assert(a@.skip(i as int).len() == na - i);
            assert(b@.skip(i as int).len() == nb - i);
        }
        if i == na {
            return true;
        }
        if i == nb {
            return false;
        }
        let ca = a.get_char(i);
        let cb = b.get_char(i);
        proof {
            assert(a@.skip(i as int)[0] == a@[i as int]);
            assert(b@.skip(i as int)[0] == b@[i as int]);
        }
        if ca != cb {
            return (ca as u32) < (cb as u32);
        }
        proof {
            assert(a@.skip(i as int).skip(1) =~= a@.skip(i + 1));
            assert(b@.skip(i as int).skip(1) =~= b@.skip(i + 1));
        }
        i += 1;
    }
}

/// Tells whether two strings hold the same characters.
pub fn str_eq(a: &str, b: &str) -> (r: bool)
    ensures
        r == (a@ == b@),
{
    let na = a.unicode_len();
    let nb = b.unicode_len();
    if na != nb {
        return false;
    }
    let mut i: usize = 0;
    while i < na
        invariant
            i <= na,
            na == a@.len(),
            nb == b@.len(),
            na == nb,
            forall|j: int| 0 <= j < i ==> a@[j] == b@[j],
        decreases na - i,
    {
        if a.get_char(i) != b.get_char(i) {
            return false;
        }
        i += 1;
    }
    proof {
        assert(a@ =~= b@);
    }
    true
}

/// Tells whether some string in the vector holds these characters.
pub fn vec_contains_str(v: &Vec<String>, s: &str) -> (r: bool)
    ensures
        r == views_of(v@).contains(s@),
{
    let mut i: usize = 0;
    while i < v.len()
        invariant
            i <= v@.len(),
            forall|j: int| 0 <= j < i ==> v@[j]@ != s@,
        decreases v@.len() - i,
    {
        if str_eq(v[i].as_str(), s) {
            proof {
                assert(views_of(v@)[i as int] == s@);
            }
            return true;
        }
        i += 1;
    }
    proof {
        assert forall|j: int| 0 <= j < views_of(v@).len() implies views_of(v@)[j] != s@ by {
            assert(views_of(v@)[j] == v@[j]@);
        }
    }
    false
}

/// Pushing an element onto a sequence inserts it into the sequence's set.
pub proof fn lemma_to_set_push<A>(s: Seq<A>, x: A)
    ensures
        s.push(x).to_set() == s.to_set().insert(x),
{
    assert forall|y: A| s.push(x).to_set().contains(y) implies s.to_set().insert(x).contains(
        y,
    ) by {
        let i = choose|i: int| 0 <= i < s.push(x).len() && s.push(x)[i] == y;
        if i < s.len() {
            assert(s.contains(y));
        }
    }
    assert forall|y: A| s.to_set().insert(x).contains(y) implies s.push(x).to_set().contains(
        y,
    ) by {
        if s.to_set().contains(y) {
            let i = choose|i: int| 0 <= i < s.len() && s[i] == y;
            assert(s.push(x)[i] == y);
        } else {
            assert(s.push(x)[s.len() as int] == y);
        }
    }
    assert(s.push(x).to_set() =~= s.to_set().insert(x));
}

proof fn lemma_to_multiset_insert<A>(s: Seq<A>, i: int, x: A)
    requires
        0 <= i <= s.len(),
    ensures
        s.insert(i, x).to_multiset() == s.to_multiset().insert(x),
{
    broadcast use group_to_multiset_ensures;

    let t = s.insert(i, x);
    assert(t.remove(i) =~= s);
    assert(t[i] == x);
    assert(s.to_multiset() =~= t.to_multiset().remove(x));
    assert(t.contains(x));
    assert(t.to_multiset().count(x) > 0);
    assert(t.to_multiset() =~= s.to_multiset().insert(x)) by {
        assert(forall|y: A|
            #[trigger] t.to_multiset().count(y) == s.to_multiset().insert(x).count(y));
    }
}

proof fn lemma_lex_sorted_insert(s: Seq<Seq<char>>, k: int, x: Seq<char>)
    requires
        lex_sorted(s),
        0 <= k <= s.len(),
        forall|j: int| 0 <= j < k ==> lex_leq(#[trigger] s[j], x),
        k < s.len() ==> lex_leq(x, s[k]),
    ensures
        lex_sorted(s.insert(k, x)),
{
    let leq = lex_leq_fn();
    let t = s.insert(k, x);
    assert forall|j: int| k <= j < s.len() implies lex_leq(x, #[trigger] s[j]) by {
        if j > k {
            assert(lex_leq_fn()(s[k], s[j]));
            lemma_lex_trans(x, s[k], s[j]);
        }
    }
    assert forall|i: int, j: int| 0 <= i < j < t.len() implies #[trigger] leq(t[i], t[j]) by {
        if i < k && j < k {
            assert(t[i] == s[i] && t[j] == s[j]);
        } else if i < k && j == k {
            assert(t[i] == s[i] && t[j] == x);
        } else if i < k && j > k {
            assert(t[i] == s[i] && t[j] == s[j - 1]);
        } else if i == k {
            assert(t[i] == x && t[j] == s[j - 1]);
        } else {
            assert(t[i] == s[i - 1] && t[j] == s[j - 1]);
        }
    }
}

/// The position before the first string that the given one precedes.
fn insert_position(out: &Vec<String>, s: &str) -> (k: usize)
    ensures
        k <= out@.len(),
        forall|j: int| 0 <= j < k ==> lex_leq(#[trigger] views_of(out@)[j], s@),
        k < out@.len() ==> lex_leq(s@, views_of(out@)[k as int]),
{
    let mut k: usize = 0;
    while k < out.len()
        invariant
            k <= out@.len(),
            forall|j: int| 0 <= j < k ==> lex_leq(#[trigger] views_of(out@)[j], s@),
        decreases out@.len() - k,
    {
        if str_le(s, out[k].as_str()) {
            proof {
                assert(views_of(out@)[k as int] == out@[k as int]@);
            }
            return k;
        }
        proof {
            lemma_lex_connected(s@, out@[k as int]@);
            assert(views_of(out@)[k as int] == out@[k as int]@);
        }
        k += 1;
    }
    k
}

/// Sorts rendered dependency strings lexicographically, keeping exactly the
/// same strings.
pub fn sort_strings(v: Vec<String>) -> (r: Vec<String>)
    ensures
        lex_sorted(views_of(r@)),
        views_of(r@).to_multiset() == views_of(v@).to_multiset(),
{
    broadcast use group_to_multiset_ensures;

    let mut src = v;
    let mut out: Vec<String> = Vec::new();
    proof {
        assert(views_of(out@) =~= Seq::<Seq<char>>::empty());
        assert(views_of(out@).to_multiset().add(views_of(src@).to_multiset()) =~= views_of(
            v@,
        ).to_multiset());
    }
    while src.len() > 0
        invariant
            lex_sorted(views_of(out@)),
            views_of(out@).to_multiset().add(views_of(src@).to_multiset()) == views_of(
                v@,
            ).to_multiset(),
        decreases src@.len(),
    {
        let ghost old_src = src@;
        let ghost old_out = out@;
        let s = src.pop().unwrap();
        proof {
            assert(old_src =~= src@.push(s));
            assert(views_of(old_src) =~= views_of(src@).push(s@));
            views_of(src@).to_multiset_ensures();
            assert(views_of(src@).push(s@).to_multiset() == views_of(src@).to_multiset().insert(
                s@,
            ));
        }
        let k = insert_position(&out, s.as_str());
        let ghost kk: int = k as int;
        out.insert(k, s);
        proof {
            assert(views_of(out@) =~= views_of(old_out).insert(kk, s@));
            lemma_lex_sorted_insert(views_of(old_out), kk, s@);
            lemma_to_multiset_insert(views_of(old_out), kk, s@);
            assert(views_of(out@).to_multiset().add(views_of(src@).to_multiset()) =~= views_of(
                v@,
            ).to_multiset());
        }
    }
    proof {
        assert(views_of(src@) =~= Seq::<Seq<char>>::empty());
        assert(views_of(out@).to_multiset().add(views_of(src@).to_multiset()) =~= views_of(
            out@,
        ).to_multiset());
    }
    out
}

/// A whitespace character for the purpose of marker-comment comparison.
pub open spec fn is_ws(c: char) -> bool {
    c == ' ' || c == '\t' || c == '\n' || c == '\r'
}

/// The sequence without its leading whitespace.
pub open spec fn trim_front(s: Seq<char>) -> Seq<char>
    decreases s.len(),
{
    if s.len() > 0 && is_ws(s[0]) {
        trim_front(s.skip(1))
    } else {
        s
    }
}

/// The sequence without its trailing whitespace.
pub open spec fn trim_back(s: Seq<char>) -> Seq<char>
    decreases s.len(),
{
    if s.len() > 0 && is_ws(s[s.len() - 1]) {
        trim_back(s.drop_last())
    } else {
        s
    }
}

/// The sequence without leading and trailing whitespace.
pub open spec fn trim_spec(s: Seq<char>) -> Seq<char> {
    trim_back(trim_front(s))
}

fn is_ws_char(c: char) -> (r: bool)
    ensures
        r == is_ws(c),
{
    c == ' ' || c == '\t' || c == '\n' || c == '\r'
}

/// The index where the trimmed part of the string starts.
fn scan_front(s: &str, n: usize) -> (start: usize)
    requires
        n == s@.len(),
    ensures
        start <= n,
        trim_front(s@) == s@.skip(start as int),
{
    let mut start: usize = 0;
    proof {
        assert(s@.skip(0) =~= s@);
    }
    while start < n
        invariant
            start <= n,
            n == s@.len(),
            trim_front(s@) == trim_front(s@.skip(start as int)),
        decreases n - start,
    {
        proof {
            assert(s@.skip(start as int)[0] == s@[start as int]);
        }
        if !is_ws_char(s.get_char(start)) {
            return start;
        }
        proof {
            assert(s@.skip(start as int).skip(1) =~= s@.skip(start + 1));
        }
        start += 1;
    }
    proof {
        assert(s@.skip(start as int).len() == 0);
    }
    start
}

/// The index where the trimmed part of the string ends, scanning back from
/// the end to the given start.
fn scan_back(s: &str, n: usize, start: usize) -> (end: usize)
    requires
        n == s@.len(),
        start <= n,
    ensures
        start <= end <= n,
        trim_back(s@.skip(start as int)) == s@.subrange(start as int, end as int),
{
    let mut end: usize = n;
    proof {
        assert(s@.skip(start as int) =~= s@.subrange(start as int, n as int));
    }
    while end > start
        invariant
            start <= end <= n,
            n == s@.len(),
            trim_back(s@.skip(start as int)) == trim_back(s@.subrange(start as int, end as int)),
        decreases end,
    {
        let c = s.get_char(end - 1);
        proof {
            let t = s@.subrange(start as int, end as int);
            assert(t[t.len() - 1] == s@[end - 1]);
        }
        if !is_ws_char(c) {
            return end;
        }
        proof {
            let t = s@.subrange(start as int, end as int);
            assert(t.drop_last() =~= s@.subrange(start as int, end - 1));
        }
        end -= 1;
    }
    proof {
        assert(s@.subrange(start as int, end as int).len() == 0);
    }
    end
}

/// Finds the bounds of the trimmed part of a string.
fn trim_bounds(s: &str) -> (r: (usize, usize))
    ensures
        r.0 <= r.1 <= s@.len(),
        trim_spec(s@) == s@.subrange(r.0 as int, r.1 as int),
{
    let n = s.unicode_len();
    let start = scan_front(s, n);
    let end = scan_back(s, n, start);
    (start, end)
}

/// Tells whether two strings are equal after trimming whitespace at both ends.
pub fn trimmed_eq(a: &str, b: &str) -> (r: bool)
    ensures
        r == (trim_spec(a@) == trim_spec(b@)),
{
    let (a0, a1) = trim_bounds(a);
    let (b0, b1) = trim_bounds(b);
    let ta = a.substring_char(a0, a1);
    let tb = b.substring_char(b0, b1);
    str_eq(ta, tb)
}

/// The name of an environment indicator derived from an uppercased feature
/// name; abstract because Unicode case folding is carried out by std.
pub uninterp spec fn upper_of(s: Seq<char>) -> Seq<char>;

/// Hyphens become underscores; every other character stays.
pub open spec fn dash_map(c: char) -> char {
    if c == '-' {
        '_'
    } else {
        c
    }
}

/// The feature name with every hyphen replaced by an underscore.
pub open spec fn dashes_to_underscores(s: Seq<char>) -> Seq<char> {
    s.map_values(|c: char| dash_map(c))
}

/// The environment variable whose presence selects a feature.
pub open spec fn env_var_name(feature: Seq<char>) -> Seq<char> {
    "CARGO_FEATURE_"@ + upper_of(dashes_to_underscores(feature))
}

/// Relies on str::to_uppercase: the result is a function of the characters
/// alone, here named `upper_of`.
#[verifier::external_body]
fn to_uppercase_str(s: &str) -> (r: String)
    ensures
        r@ == upper_of(s@),
{
    s.to_uppercase()
}

/// Derives the environment indicator name of a feature: hyphens replaced by
/// underscores, uppercased, with the fixed cargo prefix.
pub fn env_var_name_of(feature: &str) -> (r: String)
    ensures
        r@ == env_var_name(feature@),
{
    let n = feature.unicode_len();
    let mut replaced = String::new();
    let mut i: usize = 0;
    proof {
        assert(replaced@ =~= dashes_to_underscores(feature@.take(0)));
    }
    while i < n
        invariant
            i <= n,
            n == feature@.len(),
            replaced@ == dashes_to_underscores(feature@.take(i as int)),
        decreases n - i,
    {
        let c = feature.get_char(i);
        if c == '-' {
            replaced.append("_");
            proof {
                reveal_strlit("_");
                assert(replaced@ =~= dashes_to_underscores(feature@.take(i + 1)));
            }
        } else {
            let piece = feature.substring_char(i, i + 1);
            replaced.append(piece);
            proof {
                assert(piece@ =~= seq![feature@[i as int]]);
                assert(replaced@ =~= dashes_to_underscores(feature@.take(i + 1)));
            }
        }
        i += 1;
    }
    proof {
        assert(feature@.take(n as int) =~= feature@);
    }
    let upper = to_uppercase_str(replaced.as_str());
    let prefix: String = "CARGO_FEATURE_".to_owned();
    let r = prefix.concat(upper.as_str());
    r
}

} // verus!
