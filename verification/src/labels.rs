//! Label codec: converts between raw permission names and namespaced access
//! labels (`access.<name>`) stored in an account's metadata list, with
//! normalization (lexicographic sort, duplicate removal) at creation time.

use vstd::prelude::*;

verus! {

/// The namespace prepended to a permission name before storage.
pub open spec fn access_prefix() -> Seq<char> {
    "access."@
}

/// The storage label derived from a raw permission name.
pub open spec fn label_of(name: Seq<char>) -> Seq<char> {
    access_prefix() + name
}

/// Whether a metadata entry is an access label, i.e. starts with `access.`.
pub open spec fn has_access_prefix(s: Seq<char>) -> bool {
    s.len() >= 7 && s.subrange(0, 7) == access_prefix()
}

/// Lexicographic order on character sequences, by code point; the empty
/// sequence comes first.
pub open spec fn lex_lt(a: Seq<char>, b: Seq<char>) -> bool
    decreases a.len(),
{
    if b.len() == 0 {
        false
    } else if a.len() == 0 {
        true
    } else if a[0] as u32 == b[0] as u32 {
        lex_lt(a.drop_first(), b.drop_first())
    } else {
        (a[0] as u32) < (b[0] as u32)
    }
}

proof fn lemma_char_cast_eq(c1: char, c2: char)
    requires
        c1 as u32 == c2 as u32,
    ensures
        c1 == c2,
{
    vstd::utf8::char_u32_cast(c1, c1 as u32);
    vstd::utf8::char_u32_cast(c2, c2 as u32);
}

/// A list of strings in strictly increasing lexicographic order: sorted and
/// free of duplicates.
pub open spec fn strictly_sorted(v: Seq<String>) -> bool {
    forall|i: int, j: int| 0 <= i < j < v.len() ==> lex_lt(v[i]@, v[j]@)
}

/// The set of character sequences a list of strings holds.
pub open spec fn views_of(v: Seq<String>) -> Set<Seq<char>> {
    Set::new(|x: Seq<char>| exists|i: int| 0 <= i < v.len() && v[i]@ == x)
}

/// The set of access labels derived from a list of requested names.
pub open spec fn label_set(names: Seq<String>) -> Set<Seq<char>> {
    Set::new(|x: Seq<char>| exists|i: int| 0 <= i < names.len() && x == label_of(names[i]@))
}

/// The entries of `meta` that are not access labels, in their original order.
pub open spec fn strip_spec(meta: Seq<String>) -> Seq<String>
    decreases meta.len(),
{
    if meta.len() == 0 {
        Seq::empty()
    } else if has_access_prefix(meta[0]@) {
        strip_spec(meta.drop_first())
    } else {
        seq![meta[0]] + strip_spec(meta.drop_first())
    }
}

proof fn lemma_lex_lt_irrefl(a: Seq<char>)
    ensures
        !lex_lt(a, a),
    decreases a.len(),
{
    if a.len() > 0 {
        lemma_lex_lt_irrefl(a.drop_first());
    }
}

/// The order is total: two sequences are ordered one way or the other, or
/// they are equal.
pub proof fn lemma_lex_trichotomy(a: Seq<char>, b: Seq<char>)
    ensures
        lex_lt(a, b) || lex_lt(b, a) || a == b,
    decreases a.len(),
{
    if a.len() == 0 && b.len() == 0 {
        assert(a =~= b);
    } else if a.len() > 0 && b.len() > 0 && a[0] as u32 == b[0] as u32 {
        lemma_char_cast_eq(a[0], b[0]);
        lemma_lex_trichotomy(a.drop_first(), b.drop_first());
        if a.drop_first() == b.drop_first() {
            assert(a =~= b) by {
                assert(a.drop_first().len() == b.drop_first().len());
                assert(a.len() == b.len());
                assert forall|i: int| 0 <= i < a.len() implies a[i] == b[i] by {
                    if i > 0 {
                        assert(a.drop_first()[i - 1] == a[i]);
                        assert(b.drop_first()[i - 1] == b[i]);
                    }
                };
            };
        }
    }
}

/// The order is transitive.
pub proof fn lemma_lex_lt_trans(a: Seq<char>, b: Seq<char>, c: Seq<char>)
    requires
        lex_lt(a, b),
        lex_lt(b, c),
    ensures
        lex_lt(a, c),
    decreases a.len(),
{
    if a.len() > 0 && b.len() > 0 && c.len() > 0 && a[0] as u32 == b[0] as u32 && b[0] as u32
        == c[0] as u32 {
        lemma_lex_lt_trans(a.drop_first(), b.drop_first(), c.drop_first());
    }
}

/// The order is asymmetric; with trichotomy, equal-viewed strings are the
/// only unordered pairs.
pub proof fn lemma_lex_lt_asymm(a: Seq<char>, b: Seq<char>)
    requires
        lex_lt(a, b),
    ensures
        !lex_lt(b, a),
    decreases a.len(),
{
    if a.len() > 0 && b.len() > 0 && a[0] as u32 == b[0] as u32 {
        lemma_lex_lt_asymm(a.drop_first(), b.drop_first());
    }
}

/// Compare two strings in the lexicographic order.
pub fn str_lt(a: &str, b: &str) -> (r: bool)
    ensures
        r == lex_lt(a@, b@),
{
    let na: usize = a.unicode_len();
    let nb: usize = b.unicode_len();
    let mut i: usize = 0;
    proof {
        assert(a@.skip(0) =~= a@);
        assert(b@.skip(0) =~= b@);
    }
    loop
        invariant
            na == a@.len(),
            nb == b@.len(),
            i <= na,
            i <= nb,
            lex_lt(a@, b@) == lex_lt(a@.skip(i as int), b@.skip(i as int)),
        decreases na - i,
    {
        if i == na {
            proof {
                assert(a@.skip(i as int).len() == 0);
            }
            return i < nb;
        }
        if i == nb {
            proof {
                assert(b@.skip(i as int).len() == 0);
            }
            return false;
        }
        let ca: char = a.get_char(i);
        let cb: char = b.get_char(i);
        proof {
            assert(a@.skip(i as int)[0] == a@[i as int]);
            assert(b@.skip(i as int)[0] == b@[i as int]);
        }
        if ca as u32 != cb as u32 {
            return (ca as u32) < (cb as u32);
        }
        proof {
            assert(a@.skip(i as int).drop_first() =~= a@.skip(i as int + 1));
            assert(b@.skip(i as int).drop_first() =~= b@.skip(i as int + 1));
        }
        i = i + 1;
    }
}

/// Whether a metadata entry starts with the `access.` namespace.
pub fn is_access_label(s: &str) -> (r: bool)
    ensures
        r == has_access_prefix(s@),
{
    proof {
        reveal_strlit("access.");
    }
    let n: usize = s.unicode_len();
    if n < 7 {
        return false;
    }
    let r = s.get_char(0) == 'a' && s.get_char(1) == 'c' && s.get_char(2) == 'c' && s.get_char(3)
        == 'e' && s.get_char(4) == 's' && s.get_char(5) == 's' && s.get_char(6) == '.';
    proof {
        if r {
            assert(s@.subrange(0, 7) =~= access_prefix());
        } else {
            assert(s@.subrange(0, 7) != access_prefix()) by {
                if s@.subrange(0, 7) == access_prefix() {
                    assert(s@[0] == access_prefix()[0]);
                    assert(s@[1] == access_prefix()[1]);
                    assert(s@[2] == access_prefix()[2]);
                    assert(s@[3] == access_prefix()[3]);
                    assert(s@[4] == access_prefix()[4]);
                    assert(s@[5] == access_prefix()[5]);
                    assert(s@[6] == access_prefix()[6]);
                }
            }
        }
    }
    r
}

/// Build the storage label `access.<name>` for one requested name.
pub fn make_label(name: &str) -> (r: String)
    ensures
        r@ == label_of(name@),
{
    let prefix: String = String::from_str("access.");
    prefix.concat(name)
}

/// Insert a string into a strictly sorted list, keeping it strictly sorted;
/// an entry with the same characters is not duplicated.
fn insert_sorted(v: &mut Vec<String>, s: String)
    requires
        strictly_sorted(old(v)@),
    ensures
        strictly_sorted(final(v)@),
        views_of(final(v)@) == views_of(old(v)@).insert(s@),
{
    let mut i: usize = 0;
    loop
        invariant
            strictly_sorted(v@),
            i <= v@.len(),
            forall|j: int| 0 <= j < i ==> lex_lt(v@[j]@, s@),
            v@ == old(v)@,
        ensures
            i <= v@.len(),
            forall|j: int| 0 <= j < i ==> lex_lt(v@[j]@, s@),
            i < v@.len() ==> !lex_lt(v@[i as int]@, s@),
            v@ == old(v)@,
        decreases v@.len() - i,
    {
        if i == v.len() {
            break;
        }
        if str_lt(v[i].as_str(), s.as_str()) {
            i = i + 1;
        } else {
            break;
        }
    }
    let ghost oldv = v@;
    let ghost sv = s@;
    if i == v.len() {
        v.push(s);
        proof {
            assert(views_of(v@) =~= views_of(oldv).insert(sv)) by {
                assert(forall|x: Seq<char>| views_of(oldv).contains(x) ==> views_of(
                    v@,
                ).contains(x)) by {
                    assert(forall|k: int| 0 <= k < oldv.len() ==> v@[k] == oldv[k]);
                };
                assert(v@[oldv.len() as int]@ == sv);
            };
        }
    } else if str_lt(s.as_str(), v[i].as_str()) {
        v.insert(i, s);
        proof {
            assert(strictly_sorted(v@)) by {
                assert forall|p: int, q: int| 0 <= p < q < v@.len() implies lex_lt(
                    v@[p]@,
                    v@[q]@,
                ) by {
                    if p < i as int && q == i as int {
                        assert(v@[p] == oldv[p]);
                    } else if p == i as int && q > i as int {
                        assert(v@[q] == oldv[q - 1]);
                        if q > i as int + 1 {
                            lemma_lex_lt_trans(sv, oldv[i as int]@, oldv[q - 1]@);
                        }
                    } else if p < i as int && q > i as int {
                        assert(v@[p] == oldv[p]);
                        assert(v@[q] == oldv[q - 1]);
                    } else if p > i as int {
                        assert(v@[p] == oldv[p - 1]);
                        assert(v@[q] == oldv[q - 1]);
                    } else {
                        assert(v@[p] == oldv[p]);
                        assert(v@[q] == oldv[q]);
                    }
                };
            };
            assert(views_of(v@) =~= views_of(oldv).insert(sv)) by {
                assert forall|x: Seq<char>| views_of(oldv).insert(sv).contains(x) implies views_of(
                    v@,
                ).contains(x) by {
                    if x == sv {
                        assert(v@[i as int]@ == x);
                    } else {
                        let k = choose|k: int| 0 <= k < oldv.len() && oldv[k]@ == x;
                        if k < i {
                            assert(v@[k]@ == x);
                        } else {
                            assert(v@[k + 1]@ == x);
                        }
                    }
                };
                assert forall|x: Seq<char>| views_of(v@).contains(x) implies views_of(
                    oldv,
                ).insert(sv).contains(x) by {
                    let k = choose|k: int| 0 <= k < v@.len() && v@[k]@ == x;
                    if k < i {
                        assert(oldv[k]@ == x);
                    } else if k > i {
                        assert(oldv[k - 1]@ == x);
                    }
                };
            };
        }
    } else {
        proof {
            lemma_lex_trichotomy(sv, v@[i as int]@);
            assert(v@[i as int]@ == sv);
            assert(views_of(v@) =~= views_of(oldv).insert(sv));
        }
    }
}

/// Derive the normalized labels from a list of requested permission names:
/// each name `n` becomes `access.<n>`, and the result is sorted and free of
/// duplicates, whatever order or multiplicity the request had.
pub fn to_labels(names: &Vec<String>) -> (r: Vec<String>)
    ensures
        strictly_sorted(r@),
        views_of(r@) == label_set(names@),
{
    let mut out: Vec<String> = Vec::new();
    let mut k: usize = 0;
    proof {
        assert(views_of(out@) =~= label_set(names@.subrange(0, 0)));
    }
    while k < names.len()
        invariant
            k <= names@.len(),
            strictly_sorted(out@),
            views_of(out@) == label_set(names@.subrange(0, k as int)),
        decreases names@.len() - k,
    {
        let label: String = make_label(names[k].as_str());
        insert_sorted(&mut out, label);
        proof {
            assert(names@.subrange(0, k as int + 1).drop_last() =~= names@.subrange(0, k as int));
            assert(views_of(out@) =~= label_set(names@.subrange(0, k as int + 1))) by {
                let pre = names@.subrange(0, k as int);
                let cur = names@.subrange(0, k as int + 1);
                assert forall|x: Seq<char>| label_set(pre).insert(
                    label_of(names@[k as int]@),
                ).contains(x) implies label_set(cur).contains(x) by {
                    if x == label_of(names@[k as int]@) {
                        assert(cur[k as int]@ == names@[k as int]@);
                        assert(x == label_of(cur[k as int]@));
                    } else {
                        let j = choose|j: int| 0 <= j < pre.len() && x == label_of(pre[j]@);
                        assert(x == label_of(cur[j]@));
                    }
                };
                assert forall|x: Seq<char>| label_set(cur).contains(x) implies label_set(
                    pre,
                ).insert(label_of(names@[k as int]@)).contains(x) by {
                    let j = choose|j: int| 0 <= j < cur.len() && x == label_of(cur[j]@);
                    if j < k as int {
                        assert(x == label_of(pre[j]@));
                    }
                };
            };
        }
        k = k + 1;
    }
    proof {
        assert(names@.subrange(0, names@.len() as int) =~= names@);
    }
    out
}

/// Keep the entries of `meta` that are not access labels, in their original
/// relative order.
pub fn strip_access_labels(meta: &Vec<String>) -> (r: Vec<String>)
    ensures
        r@ == strip_spec(meta@),
{
    let mut out: Vec<String> = Vec::new();
    let mut k: usize = 0;
    proof {
        assert(meta@.skip(0) =~= meta@);
        assert(Seq::<String>::empty() + strip_spec(meta@) =~= strip_spec(meta@));
    }
    while k < meta.len()
        invariant
            k <= meta@.len(),
            strip_spec(meta@) == out@ + strip_spec(meta@.skip(k as int)),
        decreases meta@.len() - k,
    {
        proof {
            lemma_strip_skip_step(meta@, k as int);
            assert(meta@.skip(k as int).drop_first() =~= meta@.skip(k as int + 1));
        }
        let ghost out_old = out@;
        if !is_access_label(meta[k].as_str()) {
            let entry: String = meta[k].clone();
            out.push(entry);
            proof {
                assert(out_old + (seq![meta@[k as int]] + strip_spec(meta@.skip(k as int + 1)))
                    =~= out@ + strip_spec(meta@.skip(k as int + 1)));
            }
        }
        k = k + 1;
    }
    proof {
        assert(strip_spec(meta@.skip(meta@.len() as int)) =~= Seq::<String>::empty());
        assert(out@ + strip_spec(meta@.skip(meta@.len() as int)) =~= out@);
    }
    out
}

proof fn lemma_strip_skip_step(meta: Seq<String>, k: int)
    requires
        0 <= k <= meta.len(),
    ensures
        k < meta.len() && !has_access_prefix(meta[k]@) ==> strip_spec(meta.skip(k)) == seq![
            meta[k],
        ] + strip_spec(meta.skip(k).drop_first()),
        k < meta.len() && has_access_prefix(meta[k]@) ==> strip_spec(meta.skip(k)) == strip_spec(
            meta.skip(k).drop_first(),
        ),
        k == meta.len() ==> strip_spec(meta.skip(k)) == Seq::<String>::empty(),
{
    if k < meta.len() {
        assert(meta.skip(k)[0] == meta[k]);
    }
}

/// Replace the access labels of a metadata list: every `access.`-prefixed
/// entry is removed, the other entries keep their relative order, and one
/// label `access.<n>` is appended for each requested name, in the requested
/// order (this path does not re-sort; see `to_labels` for the normalizing
/// creation path).
pub fn replace_access_labels(meta: &Vec<String>, new_names: &Vec<String>) -> (r: Vec<String>)
    ensures
        r@.len() == strip_spec(meta@).len() + new_names@.len(),
        forall|i: int|
            0 <= i < strip_spec(meta@).len() ==> r@[i] == strip_spec(meta@)[i],
        forall|j: int|
            0 <= j < new_names@.len() ==> r@[strip_spec(meta@).len() + j]@ == label_of(
                new_names@[j]@,
            ),
{
    let mut out: Vec<String> = strip_access_labels(meta);
    let ghost base = out@;
    let mut k: usize = 0;
    while k < new_names.len()
        invariant
            k <= new_names@.len(),
            base == strip_spec(meta@),
            out@.len() == base.len() + k,
            forall|i: int| 0 <= i < base.len() ==> out@[i] == base[i],
            forall|j: int| 0 <= j < k ==> out@[base.len() + j]@ == label_of(new_names@[j]@),
        decreases new_names@.len() - k,
    {
        let label: String = make_label(new_names[k].as_str());
        out.push(label);
        k = k + 1;
    }
    out
}

/// Law: every entry the codec stores for a requested name is itself an
/// access label.
pub proof fn lemma_label_of_has_prefix(name: Seq<char>)
    ensures
        has_access_prefix(label_of(name)),
{
    reveal_strlit("access.");
    assert(label_of(name).subrange(0, 7) =~= access_prefix());
}

/// Law: stripping removes every access label and nothing else; a list
/// without access labels passes through unchanged, so stripping is
/// idempotent and keeps the relative order of what it keeps.
pub proof fn lemma_strip_removes_all(meta: Seq<String>)
    ensures
        forall|i: int|
            0 <= i < strip_spec(meta).len() ==> !has_access_prefix(strip_spec(meta)[i]@),
        (forall|i: int| 0 <= i < meta.len() ==> !has_access_prefix(meta[i]@)) ==> strip_spec(meta)
            == meta,
    decreases meta.len(),
{
    if meta.len() > 0 {
        lemma_strip_removes_all(meta.drop_first());
        assert(forall|i: int|
            0 <= i < meta.drop_first().len() ==> meta.drop_first()[i] == meta[i + 1]);
        if !has_access_prefix(meta[0]@) {
            if forall|i: int| 0 <= i < meta.len() ==> !has_access_prefix(meta[i]@) {
                assert(seq![meta[0]] + strip_spec(meta.drop_first()) =~= meta);
            }
        }
    }
}

/// Law: stripping a stripped list changes nothing, so replacing the access
/// labels with the empty list removes exactly the access labels and keeps
/// every other entry in its original relative order.
pub proof fn lemma_strip_idempotent(meta: Seq<String>)
    ensures
        strip_spec(strip_spec(meta)) == strip_spec(meta),
{
    lemma_strip_removes_all(meta);
    lemma_strip_removes_all(strip_spec(meta));
}

/// Law: a strictly sorted list is determined by the set of character
/// sequences it holds; in particular normalizing the already-normalized
/// output of `to_labels` again gives the same list back (idempotence).
pub proof fn lemma_strictly_sorted_unique(a: Seq<String>, b: Seq<String>)
    requires
        strictly_sorted(a),
        strictly_sorted(b),
        views_of(a) == views_of(b),
    ensures
        a.len() == b.len(),
        forall|i: int| 0 <= i < a.len() ==> a[i]@ == b[i]@,
    decreases a.len(),
{
    if a.len() == 0 {
        if b.len() > 0 {
            assert(views_of(b).contains(b[0]@));
            assert(views_of(a).contains(b[0]@));
        }
    } else if b.len() == 0 {
        assert(views_of(a).contains(a[0]@));
        assert(views_of(b).contains(a[0]@));
    } else {
        assert(views_of(a).contains(a[0]@));
        assert(views_of(b).contains(b[0]@));
        assert(a[0]@ == b[0]@) by {
            if a[0]@ != b[0]@ {
                let ka = choose|k: int| 0 <= k < a.len() && a[k]@ == b[0]@;
                assert(views_of(a).contains(b[0]@));
                let kb = choose|k: int| 0 <= k < b.len() && b[k]@ == a[0]@;
                assert(views_of(b).contains(a[0]@));
                assert(ka > 0);
                assert(kb > 0);
                assert(lex_lt(a[0]@, a[ka]@));
                assert(lex_lt(b[0]@, b[kb]@));
                lemma_lex_lt_asymm(a[0]@, b[0]@);
            }
        };
        let a1 = a.drop_first();
        let b1 = b.drop_first();
        assert(strictly_sorted(a1)) by {
            assert(forall|i: int| 0 <= i < a1.len() ==> a1[i] == a[i + 1]);
        };
        assert(strictly_sorted(b1)) by {
            assert(forall|i: int| 0 <= i < b1.len() ==> b1[i] == b[i + 1]);
        };
        assert(views_of(a1) =~= views_of(b1)) by {
            assert forall|x: Seq<char>| views_of(a1).contains(x) implies views_of(b1).contains(
                x,
            ) by {
                let k = choose|k: int| 0 <= k < a1.len() && a1[k]@ == x;
                assert(a[k + 1]@ == x);
                assert(views_of(a).contains(x));
                assert(views_of(b).contains(x));
                let m = choose|m: int| 0 <= m < b.len() && b[m]@ == x;
                assert(m > 0) by {
                    if m == 0 {
                        assert(lex_lt(a[0]@, a[k + 1]@));
                        lemma_lex_lt_irrefl(a[0]@);
                    }
                };
                assert(b1[m - 1]@ == x);
            };
            assert forall|x: Seq<char>| views_of(b1).contains(x) implies views_of(a1).contains(
                x,
            ) by {
                let k = choose|k: int| 0 <= k < b1.len() && b1[k]@ == x;
                assert(b[k + 1]@ == x);
                assert(views_of(b).contains(x));
                assert(views_of(a).contains(x));
                let m = choose|m: int| 0 <= m < a.len() && a[m]@ == x;
                assert(m > 0) by {
                    if m == 0 {
                        assert(lex_lt(b[0]@, b[k + 1]@));
                        lemma_lex_lt_irrefl(b[0]@);
                    }
                };
                assert(a1[m - 1]@ == x);
            };
        };
        lemma_strictly_sorted_unique(a1, b1);
        assert(forall|i: int| 0 < i < a.len() ==> a[i] == a1[i - 1] && b[i] == b1[i - 1]);
    }
}

} // verus!
