use vstd::prelude::*;

verus! {

/// Relies on `String::push`: the character is appended.
#[verifier::external_body]
pub(crate) fn push_char(s: &mut String, c: char)
    ensures
        final(s)@ == old(s)@.push(c),
{
    s.push(c)
}

/// The characters of `s`, one by one.
pub fn chars_of(s: &String) -> (r: Vec<char>)
    ensures
        r@ == s@,
{
    let n = s.as_str().unicode_len();
    let mut r: Vec<char> = Vec::new();
    let mut i: usize = 0;
    while i < n
        invariant
            n == s@.len(),
            i <= n,
            r@ == s@.take(i as int),
        decreases n - i,
    {
        r.push(s.as_str().get_char(i));
        assert(r@ =~= s@.take(i + 1));
        i = i + 1;
    }
    assert(s@.take(n as int) =~= s@);
    r
}

/// Every occurrence of `pat` in `s` replaced by `rep`, scanning from the
/// left and never inside an earlier replacement.
pub open spec fn replace_all(s: Seq<char>, pat: Seq<char>, rep: Seq<char>) -> Seq<char>
    recommends
        pat.len() > 0,
    decreases s.len(),
{
    if s.len() == 0 || pat.len() == 0 {
        s
    } else if pat.len() <= s.len() && s.take(pat.len() as int) == pat {
        rep + replace_all(s.skip(pat.len() as int), pat, rep)
    } else {
        seq![s[0]] + replace_all(s.skip(1), pat, rep)
    }
}

proof fn lemma_replace_step(s: Seq<char>, i: int, pat: Seq<char>, rep: Seq<char>)
    requires
        0 <= i < s.len(),
        pat.len() > 0,
    ensures
        replace_all(s.skip(i), pat, rep) == if pat.len() <= s.len() - i && s.subrange(
            i,
            i + pat.len(),
        ) == pat {
            rep + replace_all(s.skip(i + pat.len()), pat, rep)
        } else {
            seq![s[i]] + replace_all(s.skip(i + 1), pat, rep)
        },
{
    let t = s.skip(i);
    assert(t.len() > 0);
    if pat.len() <= t.len() {
        assert(t.take(pat.len() as int) =~= s.subrange(i, i + pat.len()));
        assert(t.skip(pat.len() as int) =~= s.skip(i + pat.len()));
    }
    assert(t.skip(1) =~= s.skip(i + 1));
}

fn matches_at(s: &Vec<char>, i: usize, pat: &Vec<char>) -> (r: bool)
    requires
        i <= s@.len(),
    ensures
        r == (pat@.len() <= s@.len() - i && s@.subrange(i as int, i + pat@.len()) == pat@),
{
    if pat.len() > s.len() - i {
        return false;
    }
    let mut j: usize = 0;
    while j < pat.len()
        invariant
            pat@.len() <= s@.len() - i,
            j <= pat@.len(),
            s@.subrange(i as int, i + j) == pat@.take(j as int),
        decreases pat@.len() - j,
    {
        assert(i + j < s@.len());
        let n = s.len();
        assert(i + j < n);
        if s[i + j] != pat[j] {
            assert(s@.subrange(i as int, i + pat@.len())[j as int] != pat@[j as int]);
            return false;
        }
        assert(s@.subrange(i as int, i + j + 1) =~= pat@.take(j + 1));
        j = j + 1;
    }
    assert(pat@.take(j as int) =~= pat@);
    true
}

/// Replaces every occurrence of `pat` in `s` with `rep`.
pub fn replace_all_exec(s: &String, pat: &String, rep: &String) -> (r: String)
    requires
        pat@.len() > 0,
    ensures
        r@ == replace_all(s@, pat@, rep@),
{
    let cs = chars_of(s);
    let ps = chars_of(pat);
    let mut out = String::new();
    let mut i: usize = 0;
    assert(s@.skip(0) =~= s@);
    assert(out@ + replace_all(s@, pat@, rep@) =~= replace_all(s@, pat@, rep@));
    while i < cs.len()
        invariant
            cs@ == s@,
            ps@ == pat@,
            pat@.len() > 0,
            i <= cs@.len(),
            out@ + replace_all(s@.skip(i as int), pat@, rep@) == replace_all(s@, pat@, rep@),
        decreases cs@.len() - i,
    {
        proof {
            lemma_replace_step(s@, i as int, pat@, rep@);
        }
        if matches_at(&cs, i, &ps) {
            let ghost before = out@;
            out.append(rep.as_str());
            assert(out@ + replace_all(s@.skip(i + pat@.len()), pat@, rep@) =~= before + (rep@
                + replace_all(s@.skip(i + pat@.len()), pat@, rep@)));
            i = i + ps.len();
        } else {
            let ghost before = out@;
            push_char(&mut out, cs[i]);
            assert(out@ + replace_all(s@.skip(i + 1), pat@, rep@) =~= before + (seq![s@[i as int]]
                + replace_all(s@.skip(i + 1), pat@, rep@)));
            i = i + 1;
        }
    }
    assert(s@.skip(i as int).len() == 0);
    assert(out@ =~= out@ + replace_all(s@.skip(i as int), pat@, rep@));
    out
}

// ---------------------------------------------------------------------------
// Multimaps of strings, kept in insertion order
// ---------------------------------------------------------------------------

/// A multimap over plain values: keys with their values, in insertion order.
pub type MultiMapModel = Seq<(Seq<char>, Seq<Seq<char>>)>;

pub open spec fn strings_view(v: Seq<String>) -> Seq<Seq<char>> {
    v.map_values(|s: String| s@)
}

pub open spec fn multimap_view(m: Seq<(String, Vec<String>)>) -> MultiMapModel {
    m.map_values(|p: (String, Vec<String>)| (p.0@, strings_view(p.1@)))
}

/// Adds `v` to the values of `k`: after those of the first entry with that
/// key, or as a new entry at the end.
pub open spec fn multimap_append(m: MultiMapModel, k: Seq<char>, v: Seq<char>) -> MultiMapModel
    decreases m.len(),
{
    if m.len() == 0 {
        seq![(k, seq![v])]
    } else if m[0].0 == k {
        m.update(0, (k, m[0].1.push(v)))
    } else {
        seq![m[0]] + multimap_append(m.drop_first(), k, v)
    }
}

proof fn lemma_append_at(m: MultiMapModel, i: int, k: Seq<char>, v: Seq<char>)
    requires
        0 <= i < m.len(),
        m[i].0 == k,
        forall|j: int| 0 <= j < i ==> m[j].0 != k,
    ensures
        multimap_append(m, k, v) == m.update(i, (k, m[i].1.push(v))),
    decreases m.len(),
{
    if i > 0 {
        lemma_append_at(m.drop_first(), i - 1, k, v);
        assert(multimap_append(m, k, v) =~= m.update(i, (k, m[i].1.push(v))));
    }
}

proof fn lemma_append_end(m: MultiMapModel, k: Seq<char>, v: Seq<char>)
    requires
        forall|j: int| 0 <= j < m.len() ==> m[j].0 != k,
    ensures
        multimap_append(m, k, v) == m.push((k, seq![v])),
    decreases m.len(),
{
    if m.len() > 0 {
        lemma_append_end(m.drop_first(), k, v);
        assert(multimap_append(m, k, v) =~= m.push((k, seq![v])));
    }
}

/// Adds `value` to the values of `key`.
pub fn multimap_push(m: &mut Vec<(String, Vec<String>)>, key: String, value: String)
    ensures
        multimap_view(final(m)@) == multimap_append(multimap_view(old(m)@), key@, value@),
{
    let mut i: usize = 0;
    while i < m.len()
        invariant
            i <= m@.len(),
            m@ == old(m)@,
            forall|j: int| 0 <= j < i ==> multimap_view(m@)[j].0 != key@,
        decreases m@.len() - i,
    {
        if m[i].0 == key {
            proof {
                lemma_append_at(multimap_view(m@), i as int, key@, value@);
            }
            let ghost vv = value@;
            let (k, mut vals) = m.remove(i);
            vals.push(value);
            assert(strings_view(vals@) =~= strings_view(old(m)@[i as int].1@).push(vv));
            m.insert(i, (k, vals));
            assert(m@ =~= old(m)@.update(i as int, (k, vals)));
            assert(multimap_view(m@) =~= multimap_view(old(m)@).update(
                i as int,
                (key@, multimap_view(old(m)@)[i as int].1.push(vv)),
            ));
            return;
        }
        i = i + 1;
    }
    proof {
        lemma_append_end(multimap_view(m@), key@, value@);
    }
    let ghost kk = key@;
    let ghost vv = value@;
    let mut vals: Vec<String> = Vec::new();
    vals.push(value);
    assert(strings_view(vals@) =~= seq![vv]);
    m.push((key, vals));
    assert(multimap_view(m@) =~= multimap_view(old(m)@).push((kk, seq![vv])));
}

} // verus!
