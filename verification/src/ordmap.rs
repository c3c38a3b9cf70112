//! Insertion-ordered association lists.
//!
//! Task and environment tables are kept as vectors of `(name, value)` pairs
//! so that iteration order is exactly insertion/merge order.  Overwriting an
//! existing name keeps its position; a new name is appended at the end.

use vstd::prelude::*;
use vstd::pervasive::VecAdditionalExecFns;

verus! {

/// Whether some entry carries the name `k`.
pub open spec fn has_name<A>(s: Seq<(Seq<char>, A)>, k: Seq<char>) -> bool {
    exists|i: int| 0 <= i < s.len() && (#[trigger] s[i]).0 == k
}

/// Index of the first entry named `k` (meaningful only when `has_name` holds).
pub open spec fn name_index<A>(s: Seq<(Seq<char>, A)>, k: Seq<char>) -> int
    decreases s.len(),
{
    if s.len() == 0 {
        0
    } else if s[0].0 == k {
        0
    } else {
        1 + name_index(s.drop_first(), k)
    }
}

/// The value bound to name `k` (meaningful only when `has_name` holds).
pub open spec fn bound_to<A>(s: Seq<(Seq<char>, A)>, k: Seq<char>) -> A {
    s[name_index(s, k)].1
}

/// No two entries share a name.
pub open spec fn distinct_names<A>(s: Seq<(Seq<char>, A)>) -> bool {
    forall|i: int, j: int| 0 <= i < j < s.len() ==> (#[trigger] s[i]).0 != (#[trigger] s[j]).0
}

/// One binding step: overwrite in place if the name is present, else append.
pub open spec fn bind<A>(s: Seq<(Seq<char>, A)>, k: Seq<char>, v: A) -> Seq<(Seq<char>, A)> {
    if has_name(s, k) {
        s.update(name_index(s, k), (k, v))
    } else {
        s.push((k, v))
    }
}

/// Bind every entry of `t` into `s`, in order.
pub open spec fn combined<A>(s: Seq<(Seq<char>, A)>, t: Seq<(Seq<char>, A)>) -> Seq<
    (Seq<char>, A),
>
    decreases t.len(),
{
    if t.len() == 0 {
        s
    } else {
        combined(bind(s, t[0].0, t[0].1), t.drop_first())
    }
}

/// `name_index` points at the first entry named `k`.
pub proof fn lemma_name_index<A>(s: Seq<(Seq<char>, A)>, k: Seq<char>)
    requires
        has_name(s, k),
    ensures
        0 <= name_index(s, k) < s.len(),
        s[name_index(s, k)].0 == k,
        forall|j: int| 0 <= j < name_index(s, k) ==> (#[trigger] s[j]).0 != k,
    decreases s.len(),
{
    if s.len() == 0 {
    } else if s[0].0 == k {
    } else {
        let t = s.drop_first();
        assert(has_name(t, k)) by {
            let i = choose|i: int| 0 <= i < s.len() && (#[trigger] s[i]).0 == k;
            assert(t[i - 1] == s[i]);
        }
        lemma_name_index(t, k);
        assert forall|j: int| 0 <= j < name_index(s, k) implies (#[trigger] s[j]).0 != k by {
            if j > 0 {
                assert(s[j] == t[j - 1]);
            }
        }
    }
}

/// An entry named `k`, with only differently-named entries before it, is the
/// one `name_index` points at.
pub proof fn lemma_name_index_unique<A>(s: Seq<(Seq<char>, A)>, k: Seq<char>, i: int)
    requires
        0 <= i < s.len(),
        s[i].0 == k,
        forall|j: int| 0 <= j < i ==> (#[trigger] s[j]).0 != k,
    ensures
        name_index(s, k) == i,
{
    assert(has_name(s, k));
    lemma_name_index(s, k);
    let n = name_index(s, k);
    if n < i {
        assert(s[n].0 != k);
    } else if n > i {
        assert(s[i].0 != k);
    }
}

/// Binding preserves distinctness of names.
pub proof fn lemma_bind_distinct<A>(s: Seq<(Seq<char>, A)>, k: Seq<char>, v: A)
    requires
        distinct_names(s),
    ensures
        distinct_names(bind(s, k, v)),
{
    if has_name(s, k) {
        lemma_name_index(s, k);
        let b = bind(s, k, v);
        assert forall|i: int, j: int| 0 <= i < j < b.len() implies (#[trigger] b[i]).0 != (
        #[trigger] b[j]).0 by {
            assert(b[i].0 == s[i].0);
            assert(b[j].0 == s[j].0);
        }
    } else {
        let b = bind(s, k, v);
        assert forall|i: int, j: int| 0 <= i < j < b.len() implies (#[trigger] b[i]).0 != (
        #[trigger] b[j]).0 by {
            if j < s.len() {
            } else {
                assert(b[j].0 == k);
                assert(b[i] == s[i]);
                assert(!(exists|m: int| 0 <= m < s.len() && (#[trigger] s[m]).0 == k));
            }
        }
    }
}

/// Binding `k` adds exactly the name `k` to the names present.
pub proof fn lemma_bind_names<A>(s: Seq<(Seq<char>, A)>, k: Seq<char>, v: A, k2: Seq<char>)
    ensures
        has_name(bind(s, k, v), k2) <==> (has_name(s, k2) || k2 == k),
{
    let b = bind(s, k, v);
    if has_name(s, k) {
        lemma_name_index(s, k);
        assert(forall|j: int| 0 <= j < s.len() ==> (#[trigger] b[j]).0 == s[j].0);
        if has_name(s, k2) {
            let i = choose|i: int| 0 <= i < s.len() && (#[trigger] s[i]).0 == k2;
            assert(b[i].0 == k2);
        }
        if has_name(b, k2) {
            let i = choose|i: int| 0 <= i < b.len() && (#[trigger] b[i]).0 == k2;
            assert(s[i].0 == k2);
        }
        if k2 == k {
        }
    } else {
        if has_name(s, k2) {
            let i = choose|i: int| 0 <= i < s.len() && (#[trigger] s[i]).0 == k2;
            assert(b[i].0 == k2);
        }
        if k2 == k {
            assert(b[s.len() as int].0 == k2);
        }
        if has_name(b, k2) {
            let i = choose|i: int| 0 <= i < b.len() && (#[trigger] b[i]).0 == k2;
            if i < s.len() {
                assert(s[i].0 == k2);
            }
        }
    }
}

/// After binding `k` to `v`, the name `k` is bound to `v`.
pub proof fn lemma_bind_bound_same<A>(s: Seq<(Seq<char>, A)>, k: Seq<char>, v: A)
    ensures
        bound_to(bind(s, k, v), k) == v,
{
    let b = bind(s, k, v);
    if has_name(s, k) {
        let m = name_index(s, k);
        lemma_name_index(s, k);
        assert(forall|j: int| 0 <= j < m ==> (#[trigger] b[j]).0 == s[j].0);
        lemma_name_index_unique(b, k, m);
    } else {
        assert forall|j: int| 0 <= j < s.len() implies (#[trigger] b[j]).0 != k by {
            assert(b[j] == s[j]);
            assert(!(exists|i: int| 0 <= i < s.len() && (#[trigger] s[i]).0 == k));
        }
        lemma_name_index_unique(b, k, s.len() as int);
    }
}

/// Binding `k` leaves every other bound name untouched.
pub proof fn lemma_bind_bound_other<A>(s: Seq<(Seq<char>, A)>, k: Seq<char>, v: A, k2: Seq<char>)
    requires
        k2 != k,
        has_name(s, k2),
    ensures
        bound_to(bind(s, k, v), k2) == bound_to(s, k2),
{
    let b = bind(s, k, v);
    let i = name_index(s, k2);
    lemma_name_index(s, k2);
    if has_name(s, k) {
        let m = name_index(s, k);
        lemma_name_index(s, k);
        assert(forall|j: int| 0 <= j < s.len() ==> (#[trigger] b[j]).0 == s[j].0);
        lemma_name_index_unique(b, k2, i);
        assert(i != m);
    } else {
        assert(forall|j: int| 0 <= j < s.len() ==> #[trigger] b[j] == s[j]);
        lemma_name_index_unique(b, k2, i);
    }
}

/// What a name is bound to after combining: entries of `t` win, entries of
/// `s` survive where `t` is silent, and no other names appear.
pub proof fn lemma_combined_lookup<A>(s: Seq<(Seq<char>, A)>, t: Seq<(Seq<char>, A)>, k: Seq<char>)
    requires
        distinct_names(t),
    ensures
        has_name(combined(s, t), k) <==> (has_name(s, k) || has_name(t, k)),
        has_name(t, k) ==> bound_to(combined(s, t), k) == bound_to(t, k),
        !has_name(t, k) && has_name(s, k) ==> bound_to(combined(s, t), k) == bound_to(s, k),
    decreases t.len(),
{
    if t.len() == 0 {
    } else {
        let s2 = bind(s, t[0].0, t[0].1);
        let t2 = t.drop_first();
        assert(distinct_names(t2)) by {
            assert forall|i: int, j: int| 0 <= i < j < t2.len() implies (#[trigger] t2[i]).0 != (
            #[trigger] t2[j]).0 by {
                assert(t2[i] == t[i + 1]);
                assert(t2[j] == t[j + 1]);
            }
        }
        lemma_combined_lookup(s2, t2, k);
        lemma_bind_names(s, t[0].0, t[0].1, k);
        assert(has_name(t, k) <==> (t[0].0 == k || has_name(t2, k))) by {
            if has_name(t2, k) {
                let i = choose|i: int| 0 <= i < t2.len() && (#[trigger] t2[i]).0 == k;
                assert(t[i + 1].0 == k);
            }
            if t[0].0 == k {
                assert(t[0].0 == k);
            }
            if has_name(t, k) {
                let i = choose|i: int| 0 <= i < t.len() && (#[trigger] t[i]).0 == k;
                if i > 0 {
                    assert(t2[i - 1].0 == k);
                }
            }
        }
        if has_name(t2, k) {
            let i = name_index(t2, k);
            lemma_name_index(t2, k);
            assert(t[0].0 != k) by {
                assert(t2[i] == t[i + 1]);
            }
            assert(bound_to(t, k) == bound_to(t2, k)) by {
                assert(name_index(t, k) == 1 + i);
                assert(t[1 + i] == t2[i]);
            }
        } else if t[0].0 == k {
            lemma_bind_bound_same(s, t[0].0, t[0].1);
            assert(bound_to(t, k) == t[0].1) by {
                lemma_name_index_unique(t, k, 0);
            }
        } else {
            if has_name(s, k) {
                lemma_bind_bound_other(s, t[0].0, t[0].1, k);
            }
        }
    }
}

/// Combining never moves an existing entry: the first `s.len()` entries of
/// the combined table carry the names of `s`, in the order of `s`.
pub proof fn lemma_combined_positions<A>(s: Seq<(Seq<char>, A)>, t: Seq<(Seq<char>, A)>)
    ensures
        combined(s, t).len() >= s.len(),
        forall|i: int| 0 <= i < s.len() ==> (#[trigger] combined(s, t)[i]).0 == s[i].0,
    decreases t.len(),
{
    if t.len() == 0 {
    } else {
        let s2 = bind(s, t[0].0, t[0].1);
        let t2 = t.drop_first();
        if has_name(s, t[0].0) {
            lemma_name_index(s, t[0].0);
        }
        assert(s2.len() >= s.len());
        assert(forall|i: int| 0 <= i < s.len() ==> (#[trigger] s2[i]).0 == s[i].0);
        lemma_combined_positions(s2, t2);
        assert(combined(s, t) == combined(s2, t2));
        assert forall|i: int| 0 <= i < s.len() implies (#[trigger] combined(s, t)[i]).0 == s[i].0 by {
            assert(combined(s, t)[i] == combined(s2, t2)[i]);
            assert(combined(s2, t2)[i].0 == s2[i].0);
        }
    }
}

/// A property that holds of every value of `s` and of `v` holds of every
/// value of `bind(s, k, v)`.
pub proof fn lemma_bind_value_pred<A>(
    s: Seq<(Seq<char>, A)>,
    k: Seq<char>,
    v: A,
    p: spec_fn(A) -> bool,
)
    requires
        forall|i: int| 0 <= i < s.len() ==> p((#[trigger] s[i]).1),
        p(v),
    ensures
        forall|i: int| 0 <= i < bind(s, k, v).len() ==> p((#[trigger] bind(s, k, v)[i]).1),
{
    let b = bind(s, k, v);
    if has_name(s, k) {
        lemma_name_index(s, k);
    }
    assert forall|i: int| 0 <= i < b.len() implies p((#[trigger] b[i]).1) by {
        if i < s.len() && b[i] == s[i] {
            assert(p(s[i].1));
        }
    }
}

/// A property that holds of every value of `s` and of `t` holds of every
/// value of `combined(s, t)`.
pub proof fn lemma_combined_value_pred<A>(
    s: Seq<(Seq<char>, A)>,
    t: Seq<(Seq<char>, A)>,
    p: spec_fn(A) -> bool,
)
    requires
        forall|i: int| 0 <= i < s.len() ==> p((#[trigger] s[i]).1),
        forall|i: int| 0 <= i < t.len() ==> p((#[trigger] t[i]).1),
    ensures
        forall|i: int| 0 <= i < combined(s, t).len() ==> p((#[trigger] combined(s, t)[i]).1),
    decreases t.len(),
{
    if t.len() == 0 {
    } else {
        let s2 = bind(s, t[0].0, t[0].1);
        let t2 = t.drop_first();
        lemma_bind_value_pred(s, t[0].0, t[0].1, p);
        assert forall|i: int| 0 <= i < t2.len() implies p((#[trigger] t2[i]).1) by {
            assert(t2[i] == t[i + 1]);
            assert(p(t[i + 1].1));
        }
        lemma_combined_value_pred(s2, t2, p);
        assert(combined(s, t) == combined(s2, t2));
        assert forall|i: int| 0 <= i < combined(s, t).len() implies p(
            (#[trigger] combined(s, t)[i]).1,
        ) by {
            assert(combined(s, t)[i] == combined(s2, t2)[i]);
            assert(p(combined(s2, t2)[i].1));
        }
    }
}

/// How the deep view of a vector relates to its elements.
pub broadcast proof fn lemma_vec_deep_view<T: DeepView>(v: Vec<T>)
    ensures
        (#[trigger] v.deep_view()).len() == v@.len(),
        forall|i: int|
            #![trigger v.deep_view()[i]]
            #![trigger v@[i]]
            0 <= i < v@.len() ==> v.deep_view()[i] == v@[i].deep_view(),
{
}

/// How the deep view of an entry vector relates to its elements.
pub broadcast proof fn lemma_entries_deep_view<V: DeepView>(v: Vec<(String, V)>)
    ensures
        (#[trigger] v.deep_view()).len() == v@.len(),
        forall|i: int|
            #![trigger v.deep_view()[i]]
            #![trigger v@[i]]
            0 <= i < v@.len() ==> v.deep_view()[i] == (v@[i].0@, v@[i].1.deep_view()),
{
}

/// Combining preserves distinctness of names.
pub proof fn lemma_combined_distinct<A>(s: Seq<(Seq<char>, A)>, t: Seq<(Seq<char>, A)>)
    requires
        distinct_names(s),
    ensures
        distinct_names(combined(s, t)),
    decreases t.len(),
{
    if t.len() == 0 {
    } else {
        lemma_bind_distinct(s, t[0].0, t[0].1);
        lemma_combined_distinct(bind(s, t[0].0, t[0].1), t.drop_first());
    }
}

/// First value bound to `key`, if any.
pub fn entry_get<'a, V: DeepView>(entries: &'a Vec<(String, V)>, key: &String) -> (r: Option<
    &'a V,
>)
    ensures
        match r {
            Some(v) => has_name(entries.deep_view(), key@) && v.deep_view() == bound_to(
                entries.deep_view(),
                key@,
            ),
            None => !has_name(entries.deep_view(), key@),
        },
{
    broadcast use lemma_entries_deep_view;

    let n = entries.len();
    let mut i: usize = 0;
    while i < n
        invariant
            n == entries@.len(),
            i <= n,
            forall|j: int| 0 <= j < i ==> (#[trigger] entries.deep_view()[j]).0 != key@,
        decreases n - i,
    {
        if entries[i].0 == *key {
            proof {
                assert(entries.deep_view()[i as int].0 == key@);
                assert(has_name(entries.deep_view(), key@));
                lemma_name_index_unique(entries.deep_view(), key@, i as int);
            }
            return Some(&entries[i].1);
        }
        i += 1;
    }
    None
}

/// Bind `key` to `value`: overwrite the first entry so named in place, or
/// append a new entry.
pub fn entry_put<V: DeepView>(entries: &mut Vec<(String, V)>, key: String, value: V)
    ensures
        final(entries).deep_view() == bind(old(entries).deep_view(), key@, value.deep_view()),
{
    broadcast use lemma_entries_deep_view;

    let n = entries.len();
    let mut i: usize = 0;
    while i < n
        invariant
            n == entries@.len(),
            i <= n,
            *entries == *old(entries),
            forall|j: int| 0 <= j < i ==> (#[trigger] entries.deep_view()[j]).0 != key@,
        decreases n - i,
    {
        if entries[i].0 == key {
            proof {
                lemma_name_index_unique(entries.deep_view(), key@, i as int);
            }
            entries.set(i, (key, value));
            proof {
                assert(entries.deep_view() =~= bind(
                    old(entries).deep_view(),
                    key@,
                    value.deep_view(),
                ));
            }
            return ;
        }
        i += 1;
    }
    entries.push((key, value));
    proof {
        assert(entries.deep_view() =~= bind(old(entries).deep_view(), key@, value.deep_view()));
    }
}

/// Copy a table of string pairs.
pub fn copy_table(src: &Vec<(String, String)>) -> (r: Vec<(String, String)>)
    ensures
        r.deep_view() == src.deep_view(),
{
    broadcast use lemma_entries_deep_view;

    let mut out: Vec<(String, String)> = Vec::new();
    let mut i: usize = 0;
    while i < src.len()
        invariant
            i <= src@.len(),
            out@.len() == i,
            forall|j: int|
                #![trigger out.deep_view()[j]]
                0 <= j < i ==> out.deep_view()[j] == src.deep_view()[j],
        decreases src@.len() - i,
    {
        let name = src[i].0.clone();
        let value = src[i].1.clone();
        let ghost prev = out;
        out.push((name, value));
        proof {
            assert forall|j: int| 0 <= j <= i as int implies #[trigger] out.deep_view()[j]
                == src.deep_view()[j] by {
                assert(out.deep_view()[j] == (out@[j].0@, out@[j].1@));
                if j < i as int {
                    assert(out@[j] == prev@[j]);
                    assert(prev.deep_view()[j] == (prev@[j].0@, prev@[j].1@));
                } else {
                    assert(out@[j] == (name, value));
                    assert(src.deep_view()[j] == (src@[j].0@, src@[j].1@));
                }
            }
        }
        i += 1;
    }
    proof {
        assert(out.deep_view() =~= src.deep_view());
    }
    out
}

/// Copy a list of strings.
pub fn copy_strings(src: &Vec<String>) -> (r: Vec<String>)
    ensures
        r.deep_view() == src.deep_view(),
{
    broadcast use lemma_vec_deep_view;

    let mut out: Vec<String> = Vec::new();
    let mut i: usize = 0;
    while i < src.len()
        invariant
            i <= src@.len(),
            out@.len() == i,
            forall|j: int|
                #![trigger out.deep_view()[j]]
                0 <= j < i ==> out.deep_view()[j] == src.deep_view()[j],
        decreases src@.len() - i,
    {
        let item = src[i].clone();
        let ghost prev = out;
        out.push(item);
        proof {
            assert forall|j: int| 0 <= j <= i as int implies #[trigger] out.deep_view()[j]
                == src.deep_view()[j] by {
                assert(out.deep_view()[j] == out@[j]@);
                if j < i as int {
                    assert(out@[j] == prev@[j]);
                    assert(prev.deep_view()[j] == prev@[j]@);
                } else {
                    assert(out@[j] == item);
                    assert(src.deep_view()[j] == src@[j]@);
                }
            }
        }
        i += 1;
    }
    proof {
        assert(out.deep_view() =~= src.deep_view());
    }
    out
}

/// Bind every entry of `src` into `dst`, in order.
pub fn entry_extend<V: DeepView>(dst: &mut Vec<(String, V)>, src: Vec<(String, V)>)
    ensures
        final(dst).deep_view() == combined(old(dst).deep_view(), src.deep_view()),
{
    broadcast use lemma_entries_deep_view;

    let ghost dv0 = old(dst).deep_view();
    let ghost sv0 = src.deep_view();
    let mut rest = src;
    while rest.len() > 0
        invariant
            combined(dst.deep_view(), rest.deep_view()) == combined(dv0, sv0),
        decreases rest@.len(),
    {
        let ghost rv = rest.deep_view();
        let (k, v) = rest.remove(0);
        proof {
            assert(rest.deep_view() =~= rv.drop_first());
            assert(rv[0] == (k@, v.deep_view()));
        }
        entry_put(dst, k, v);
    }
    proof {
        assert(rest.deep_view() =~= Seq::<(Seq<char>, V::V)>::empty());
    }
}

} // verus!
