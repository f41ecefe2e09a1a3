use vstd::multiset::Multiset;
use vstd::prelude::*;

use crate::env_block::{
    ascii_lower, lower_unit,
    encode_block, encode_var, encode_vars,
    lemma_mentions_first, lemma_unmentioned_same,
    environment, insertion_point, lex_le, mentions, resulting_vars, same_key, set_by,
    sort_key, sorted_vars, unmentioned, EnvChange, EnvVar,
};

verus! {

broadcast use vstd::seq_lib::group_to_multiset_ensures, vstd::multiset::group_multiset_axioms;

/// The variables of `s` are in order of their sort keys.
pub open spec fn keys_sorted(s: Seq<EnvVar>) -> bool {
    forall|i: int, j: int|
        0 <= i < j < s.len() ==> #[trigger] lex_le(sort_key(s[i]), sort_key(s[j]))
}

/// Change `i` is the last change for its key (ignoring ASCII case).
pub open spec fn last_change_for_key(changes: Seq<EnvChange>, i: int) -> bool {
    &&& 0 <= i < changes.len()
    &&& forall|j: int|
        #![trigger changes[j]]
        i < j < changes.len() ==> !same_key(changes[j].0@, changes[i].0@)
}

/// The lexicographic order is total.
pub proof fn lemma_lex_total(a: Seq<u16>, b: Seq<u16>)
    ensures
        lex_le(a, b) || lex_le(b, a),
    decreases a.len(),
{
    if a.len() > 0 && b.len() > 0 && a[0] == b[0] {
        lemma_lex_total(a.drop_first(), b.drop_first());
    }
}

/// The lexicographic order is transitive.
pub proof fn lemma_lex_transitive(a: Seq<u16>, b: Seq<u16>, c: Seq<u16>)
    requires
        lex_le(a, b),
        lex_le(b, c),
    ensures
        lex_le(a, c),
    decreases a.len(),
{
    if a.len() > 0 && b.len() > 0 && c.len() > 0 && a[0] == b[0] && b[0] == c[0] {
        lemma_lex_transitive(a.drop_first(), b.drop_first(), c.drop_first());
    }
}

proof fn lemma_insertion_point(s: Seq<EnvVar>, v: EnvVar)
    ensures
        0 <= insertion_point(s, v) <= s.len(),
        insertion_point(s, v) > 0 ==> lex_le(
            sort_key(s[insertion_point(s, v) - 1]),
            sort_key(v),
        ),
        forall|j: int|
            insertion_point(s, v) <= j < s.len() ==> !lex_le(sort_key(#[trigger] s[j]), sort_key(v)),
    decreases s.len(),
{
    if s.len() > 0 && !lex_le(sort_key(s.last()), sort_key(v)) {
        let d = s.drop_last();
        lemma_insertion_point(d, v);
        let p = insertion_point(s, v);
        if p > 0 {
            assert(s[p - 1] == d[p - 1]);
        }
        assert forall|j: int| p <= j < s.len() implies !lex_le(
            sort_key(#[trigger] s[j]),
            sort_key(v),
        ) by {
            if j < s.len() - 1 {
                assert(s[j] == d[j]);
            }
        }
    }
}

/// Ordering keeps every variable and adds none: the sorted variables are
/// a permutation of the input.
pub proof fn law_sorted_vars_permutes(vars: Seq<EnvVar>)
    ensures
        sorted_vars(vars).to_multiset() == vars.to_multiset(),
    decreases vars.len(),
{
    if vars.len() > 0 {
        let s = sorted_vars(vars.drop_last());
        law_sorted_vars_permutes(vars.drop_last());
        lemma_insertion_point(s, vars.last());
        assert(vars.drop_last().push(vars.last()) =~= vars);
        assert(sorted_vars(vars).to_multiset() =~= vars.to_multiset());
    }
}

/// The sorted variables are in order of their ASCII-lowercased keys.
pub proof fn law_sorted_vars_ordered(vars: Seq<EnvVar>)
    ensures
        keys_sorted(sorted_vars(vars)),
    decreases vars.len(),
{
    if vars.len() > 0 {
        let s = sorted_vars(vars.drop_last());
        let v = vars.last();
        law_sorted_vars_ordered(vars.drop_last());
        lemma_insertion_point(s, v);
        let p = insertion_point(s, v);
        let t = s.insert(p, v);
        assert forall|i: int, j: int|
            0 <= i < j < t.len() implies #[trigger] lex_le(sort_key(t[i]), sort_key(t[j])) by {
            if j < p {
                assert(t[i] == s[i] && t[j] == s[j]);
            } else if j == p {
                assert(t[j] == v);
                assert(t[i] == s[i]);
                if i < p - 1 {
                    assert(lex_le(sort_key(s[i]), sort_key(s[p - 1])));
                    lemma_lex_transitive(sort_key(s[i]), sort_key(s[p - 1]), sort_key(v));
                }
            } else if i == p {
                assert(t[i] == v);
                assert(t[j] == s[j - 1]);
                lemma_lex_total(sort_key(s[j - 1]), sort_key(v));
            } else if i < p {
                assert(t[i] == s[i]);
                assert(t[j] == s[j - 1]);
            } else {
                assert(t[i] == s[i - 1]);
                assert(t[j] == s[j - 1]);
            }
        }
    }
}

/// The environment of a child is ordered by ASCII-lowercased key and
/// holds exactly the resulting variables.
pub proof fn law_environment_sorted_permutation(
    env_clear: bool,
    inherited: Seq<EnvVar>,
    changes: Seq<EnvChange>,
)
    ensures
        keys_sorted(environment(env_clear, inherited, changes)),
        environment(env_clear, inherited, changes).to_multiset() == resulting_vars(
            env_clear,
            inherited,
            changes,
        ).to_multiset(),
{
    law_sorted_vars_ordered(resulting_vars(env_clear, inherited, changes));
    law_sorted_vars_permutes(resulting_vars(env_clear, inherited, changes));
}


proof fn lemma_count_push(s: Seq<EnvVar>, a: EnvVar, v: EnvVar)
    ensures
        s.push(a).to_multiset().count(v) == s.to_multiset().count(v) + (if a == v {
            1int
        } else {
            0int
        }),
{
}

proof fn lemma_unmentioned_count(vars: Seq<EnvVar>, changes: Seq<EnvChange>, v: EnvVar)
    ensures
        unmentioned(vars, changes).to_multiset().count(v) == (if mentions(changes, v.0@) {
            0
        } else {
            vars.to_multiset().count(v)
        }),
    decreases vars.len(),
{
    if vars.len() > 0 {
        let d = vars.drop_last();
        let last = vars.last();
        lemma_unmentioned_count(d, changes, v);
        assert(d.push(last) =~= vars);
        lemma_count_push(d, last, v);
        lemma_count_push(unmentioned(d, changes), last, v);
    }
}

proof fn lemma_set_by_unmentioned(s: Seq<EnvChange>, v: EnvVar)
    requires
        !mentions(s, v.0@),
    ensures
        set_by(s).to_multiset().count(v) == 0,
    decreases s.len(),
{
    if s.len() > 0 {
        let c = s[0];
        let later = s.drop_first();
        lemma_mentions_first(s, v.0@);
        lemma_set_by_unmentioned(later, v);
        if !mentions(later, c.0@) && c.1 is Some {
            lemma_count_push(set_by(later), (c.0, c.1->0), v);
        }
    }
}

proof fn lemma_set_by_last(s: Seq<EnvChange>, i: int, v: EnvVar)
    requires
        last_change_for_key(s, i),
        same_key(v.0@, s[i].0@),
    ensures
        set_by(s).to_multiset().count(v) == (if s[i].1 is Some && v == (s[i].0, s[i].1->0) {
            1int
        } else {
            0int
        }),
    decreases s.len(),
{
    let c = s[0];
    let later = s.drop_first();
    if i == 0 {
        assert(!mentions(later, c.0@)) by {
            if mentions(later, c.0@) {
                let j = choose|j: int|
                    #![trigger later[j]]
                    0 <= j < later.len() && same_key(later[j].0@, c.0@);
                assert(s[j + 1] == later[j]);
            }
        }
        assert(!mentions(later, v.0@)) by {
            if mentions(later, v.0@) {
                let j = choose|j: int|
                    #![trigger later[j]]
                    0 <= j < later.len() && same_key(later[j].0@, v.0@);
                assert(s[j + 1] == later[j]);
            }
        }
        lemma_set_by_unmentioned(later, v);
        if c.1 is Some {
            lemma_count_push(set_by(later), (c.0, c.1->0), v);
        }
    } else {
        assert(later[i - 1] == s[i]);
        assert(last_change_for_key(later, i - 1)) by {
            assert forall|j: int|
                #![trigger later[j]]
                i - 1 < j < later.len() implies !same_key(later[j].0@, later[i - 1].0@) by {
                assert(s[j + 1] == later[j]);
            }
        }
        lemma_set_by_last(later, i - 1, v);
        if !mentions(later, c.0@) && c.1 is Some {
            let a = (c.0, c.1->0);
            if a == v {
                assert(same_key(later[i - 1].0@, c.0@));
            }
            lemma_count_push(set_by(later), a, v);
        }
    }
}

/// For each key the last change wins (keys compared ignoring ASCII case):
/// when it sets a value, the environment holds that key and value once and
/// no other variable with that key; when it removes the key, no variable
/// with that key is left.
pub proof fn law_last_change_wins(
    env_clear: bool,
    inherited: Seq<EnvVar>,
    changes: Seq<EnvChange>,
    i: int,
    v: EnvVar,
)
    requires
        last_change_for_key(changes, i),
        same_key(v.0@, changes[i].0@),
    ensures
        environment(env_clear, inherited, changes).to_multiset().count(v) == (if changes[i].1 is Some
            && v == (changes[i].0, changes[i].1->0) {
            1int
        } else {
            0int
        }),
{
    let base = if env_clear {
        seq![]
    } else {
        inherited
    };
    law_sorted_vars_permutes(resulting_vars(env_clear, inherited, changes));
    assert(mentions(changes, v.0@)) by {
        assert(same_key(changes[i].0@, v.0@));
    }
    lemma_unmentioned_count(base, changes, v);
    lemma_set_by_last(changes, i, v);
    vstd::seq_lib::lemma_multiset_commutative(unmentioned(base, changes), set_by(changes));
}

/// A variable whose key no change names is in the environment as often as
/// it is inherited, or not at all when the environment is cleared.
pub proof fn law_unnamed_key_inherited(
    env_clear: bool,
    inherited: Seq<EnvVar>,
    changes: Seq<EnvChange>,
    v: EnvVar,
)
    requires
        forall|i: int| 0 <= i < changes.len() ==> !same_key(#[trigger] changes[i].0@, v.0@),
    ensures
        environment(env_clear, inherited, changes).to_multiset().count(v) == (if env_clear {
            0
        } else {
            inherited.to_multiset().count(v)
        }),
{
    let base = if env_clear {
        seq![]
    } else {
        inherited
    };
    assert(!mentions(changes, v.0@));
    law_sorted_vars_permutes(resulting_vars(env_clear, inherited, changes));
    lemma_unmentioned_count(base, changes, v);
    lemma_set_by_unmentioned(changes, v);
    vstd::seq_lib::lemma_multiset_commutative(unmentioned(base, changes), set_by(changes));
    if env_clear {
        assert(base.to_multiset().count(v) == 0);
    }
}


/// Index of the first `u` in `s`, or `s.len()` when there is none.
pub open spec fn first_unit(s: Seq<u16>, u: u16) -> nat
    decreases s.len(),
{
    if s.len() == 0 || s[0] == u {
        0
    } else {
        1 + first_unit(s.drop_first(), u)
    }
}

/// The strings that a reader of an environment block sees: the
/// NUL-terminated strings from its start, up to the first empty one.
pub open spec fn block_strings(block: Seq<u16>) -> Seq<Seq<u16>>
    decreases block.len(),
{
    let n = first_unit(block, 0u16);
    if n == 0 || n >= block.len() {
        seq![]
    } else {
        seq![block.take(n as int)] + block_strings(block.skip(n + 1 as int))
    }
}

/// `s` holds no `u`.
pub open spec fn lacks(s: Seq<u16>, u: u16) -> bool {
    forall|i: int| 0 <= i < s.len() ==> s[i] != u
}

/// Neither the key nor the value of `v` holds a NUL.
pub open spec fn nul_free(v: EnvVar) -> bool {
    lacks(v.0@, 0u16) && lacks(v.1@, 0u16)
}

/// A variable as a reader of the block sees it: `KEY=VALUE`.
pub open spec fn var_string(v: EnvVar) -> Seq<u16> {
    v.0@ + seq![61u16] + v.1@
}

proof fn lemma_first_unit(a: Seq<u16>, u: u16, b: Seq<u16>)
    requires
        lacks(a, u),
    ensures
        first_unit(a + seq![u] + b, u) == a.len(),
    decreases a.len(),
{
    let x = a + seq![u] + b;
    if a.len() == 0 {
        assert(x[0] == u);
    } else {
        assert(x[0] == a[0]);
        assert(x.drop_first() =~= a.drop_first() + seq![u] + b);
        lemma_first_unit(a.drop_first(), u, b);
    }
}

proof fn lemma_encode_vars_front(vars: Seq<EnvVar>)
    requires
        vars.len() > 0,
    ensures
        encode_vars(vars) == encode_var(vars[0]) + encode_vars(vars.drop_first()),
    decreases vars.len(),
{
    let d = vars.drop_last();
    if vars.len() == 1 {
        assert(encode_vars(d) =~= Seq::<u16>::empty());
        assert(encode_vars(vars.drop_first()) =~= Seq::<u16>::empty());
        assert(encode_vars(vars) =~= encode_var(vars[0]));
    } else {
        lemma_encode_vars_front(d);
        assert(vars.drop_first().drop_last() =~= d.drop_first());
        assert(d[0] == vars[0]);
        assert(vars.drop_first().last() == vars.last());
        assert(encode_vars(vars) =~= encode_var(vars[0]) + encode_vars(vars.drop_first()));
    }
}

proof fn lemma_strings_of_encoded(vars: Seq<EnvVar>)
    requires
        forall|i: int| 0 <= i < vars.len() ==> nul_free(#[trigger] vars[i]),
    ensures
        block_strings(encode_vars(vars) + seq![0u16]) == Seq::new(
            vars.len(),
            |i: int| var_string(vars[i]),
        ),
    decreases vars.len(),
{
    let x = encode_vars(vars) + seq![0u16];
    if vars.len() == 0 {
        assert(x =~= seq![0u16]);
        assert(block_strings(x) =~= Seq::<Seq<u16>>::empty());
    } else {
        let tail = vars.drop_first();
        let s0 = var_string(vars[0]);
        let rest = encode_vars(tail) + seq![0u16];
        lemma_encode_vars_front(vars);
        assert(x =~= s0 + seq![0u16] + rest);
        assert(lacks(s0, 0u16)) by {
            assert(nul_free(vars[0]));
            assert forall|i: int| 0 <= i < s0.len() implies s0[i] != 0 by {
                if i < vars[0].0@.len() {
                } else if i == vars[0].0@.len() {
                } else {
                    assert(s0[i] == vars[0].1@[i - vars[0].0@.len() - 1]);
                }
            }
        }
        lemma_first_unit(s0, 0u16, rest);
        assert(s0.len() > 0);
        assert(x.take(s0.len() as int) =~= s0);
        assert(x.skip(s0.len() + 1 as int) =~= rest);
        assert forall|i: int| 0 <= i < tail.len() implies nul_free(#[trigger] tail[i]) by {
            assert(tail[i] == vars[i + 1]);
        }
        lemma_strings_of_encoded(tail);
        assert(block_strings(x) =~= Seq::new(vars.len(), |i: int| var_string(vars[i])));
    }
}

/// Reading the block back: when no key or value holds a NUL, the strings of
/// an environment block are exactly `KEY=VALUE` for each of its
/// variables, in order.
pub proof fn law_block_reads_back(vars: Seq<EnvVar>)
    requires
        forall|i: int| 0 <= i < vars.len() ==> nul_free(#[trigger] vars[i]),
    ensures
        block_strings(encode_block(vars)) == Seq::new(vars.len(), |i: int| var_string(vars[i])),
{
    if vars.len() == 0 {
        let b = seq![0u16, 0u16];
        assert(first_unit(b, 0u16) == 0);
        assert(block_strings(b) =~= Seq::<Seq<u16>>::empty());
        assert(Seq::new(vars.len(), |i: int| var_string(vars[i])) =~= Seq::<Seq<u16>>::empty());
    } else {
        lemma_strings_of_encoded(vars);
    }
}


/// The lexicographic order is reflexive.
pub proof fn lemma_lex_reflexive(a: Seq<u16>)
    ensures
        lex_le(a, a),
    decreases a.len(),
{
    if a.len() > 0 {
        lemma_lex_reflexive(a.drop_first());
    }
}

/// The variables of `s` whose sort key is `k`, in their order.
pub open spec fn with_sort_key(s: Seq<EnvVar>, k: Seq<u16>) -> Seq<EnvVar>
    decreases s.len(),
{
    if s.len() == 0 {
        seq![]
    } else {
        let rest = with_sort_key(s.drop_last(), k);
        if sort_key(s.last()) == k {
            rest.push(s.last())
        } else {
            rest
        }
    }
}

proof fn lemma_with_sort_key_concat(a: Seq<EnvVar>, b: Seq<EnvVar>, k: Seq<u16>)
    ensures
        with_sort_key(a + b, k) == with_sort_key(a, k) + with_sort_key(b, k),
    decreases b.len(),
{
    if b.len() == 0 {
        assert(a + b =~= a);
        assert(with_sort_key(a, k) + with_sort_key(b, k) =~= with_sort_key(a, k));
    } else {
        lemma_with_sort_key_concat(a, b.drop_last(), k);
        assert((a + b).drop_last() =~= a + b.drop_last());
        assert((a + b).last() == b.last());
        if sort_key(b.last()) == k {
            assert(with_sort_key(a, k) + with_sort_key(b.drop_last(), k).push(b.last())
                =~= (with_sort_key(a, k) + with_sort_key(b.drop_last(), k)).push(b.last()));
        }
    }
}

proof fn lemma_with_sort_key_none(s: Seq<EnvVar>, k: Seq<u16>)
    requires
        forall|i: int| 0 <= i < s.len() ==> sort_key(#[trigger] s[i]) != k,
    ensures
        with_sort_key(s, k) == Seq::<EnvVar>::empty(),
    decreases s.len(),
{
    if s.len() > 0 {
        assert forall|i: int| 0 <= i < s.drop_last().len() implies sort_key(
            #[trigger] s.drop_last()[i],
        ) != k by {
            assert(s.drop_last()[i] == s[i]);
        }
        lemma_with_sort_key_none(s.drop_last(), k);
        assert(sort_key(s[s.len() - 1]) != k);
    }
}

proof fn lemma_with_sort_key_single(x: EnvVar, k: Seq<u16>)
    ensures
        with_sort_key(seq![x], k) == (if sort_key(x) == k {
            seq![x]
        } else {
            Seq::<EnvVar>::empty()
        }),
{
    assert(seq![x].drop_last() =~= Seq::<EnvVar>::empty());
    assert(with_sort_key(seq![x].drop_last(), k) =~= Seq::<EnvVar>::empty());
    assert(seq![x].last() == x);
    if sort_key(x) == k {
        assert(Seq::<EnvVar>::empty().push(x) =~= seq![x]);
    }
}

/// Ordering is stable: for every sort key, the variables with that key
/// come out in the order they went in.
pub proof fn law_sorted_vars_stable(vars: Seq<EnvVar>, k: Seq<u16>)
    ensures
        with_sort_key(sorted_vars(vars), k) == with_sort_key(vars, k),
    decreases vars.len(),
{
    if vars.len() > 0 {
        let d = vars.drop_last();
        let x = vars.last();
        let s = sorted_vars(d);
        law_sorted_vars_stable(d, k);
        lemma_insertion_point(s, x);
        let p = insertion_point(s, x);
        let head = s.take(p);
        let tail = s.skip(p);
        assert(s.insert(p, x) =~= head + seq![x] + tail);
        assert(s =~= head + tail);
        lemma_with_sort_key_concat(head + seq![x], tail, k);
        lemma_with_sort_key_concat(head, seq![x], k);
        lemma_with_sort_key_concat(head, tail, k);
        lemma_with_sort_key_single(x, k);
        assert(sorted_vars(vars) == s.insert(p, x));
        if sort_key(x) == k {
            lemma_lex_reflexive(k);
            assert forall|i: int| 0 <= i < tail.len() implies sort_key(#[trigger] tail[i]) != k by {
                assert(tail[i] == s[p + i]);
            }
            lemma_with_sort_key_none(tail, k);
            assert(with_sort_key(head, k) + seq![x] + Seq::<EnvVar>::empty() =~= with_sort_key(
                head,
                k,
            ).push(x));
            assert(with_sort_key(head, k) + Seq::<EnvVar>::empty() =~= with_sort_key(head, k));
            assert(with_sort_key(sorted_vars(vars), k) == with_sort_key(head, k).push(x));
            assert(with_sort_key(vars, k) == with_sort_key(d, k).push(x));
        } else {
            assert(with_sort_key(head, k) + Seq::<EnvVar>::empty() =~= with_sort_key(head, k));
            assert(with_sort_key(sorted_vars(vars), k) == with_sort_key(head, k) + with_sort_key(tail, k));
            assert(with_sort_key(vars, k) == with_sort_key(d, k));
        }
    }
}


/// A `KEY=VALUE` string split at its first `=`.
pub open spec fn split_at_eq(s: Seq<u16>) -> (Seq<u16>, Seq<u16>) {
    let i = first_unit(s, 61u16);
    if i >= s.len() {
        (s, seq![])
    } else {
        (s.take(i as int), s.skip(i + 1 as int))
    }
}

/// What a reader makes of an environment block: its strings, each split
/// at the first `=` into key and value.
pub open spec fn parse_block(block: Seq<u16>) -> Seq<(Seq<u16>, Seq<u16>)> {
    block_strings(block).map_values(|s: Seq<u16>| split_at_eq(s))
}

/// The keys and values of `vars`, in order.
pub open spec fn var_pairs(vars: Seq<EnvVar>) -> Seq<(Seq<u16>, Seq<u16>)> {
    vars.map_values(|v: EnvVar| (v.0@, v.1@))
}

/// A variable whose key holds no NUL and no `=`, and whose value holds no
/// NUL.
pub open spec fn plain_var(v: EnvVar) -> bool {
    lacks(v.0@, 0u16) && lacks(v.0@, 61u16) && lacks(v.1@, 0u16)
}

/// Parsing the block back: when no key holds a NUL or `=` and no value a
/// NUL, splitting the strings of the block at their first `=` gives back
/// exactly the keys and values of its variables, in order.
pub proof fn law_block_parses_back(vars: Seq<EnvVar>)
    requires
        forall|i: int| 0 <= i < vars.len() ==> plain_var(#[trigger] vars[i]),
    ensures
        parse_block(encode_block(vars)) == var_pairs(vars),
{
    assert forall|i: int| 0 <= i < vars.len() implies nul_free(#[trigger] vars[i]) by {
        assert(plain_var(vars[i]));
    }
    law_block_reads_back(vars);
    let strings = Seq::new(vars.len(), |i: int| var_string(vars[i]));
    assert forall|i: int| 0 <= i < vars.len() implies #[trigger] split_at_eq(strings[i]) == (
        vars[i].0@,
        vars[i].1@,
    ) by {
        let v = vars[i];
        assert(plain_var(v));
        lemma_first_unit(v.0@, 61u16, v.1@);
        assert(strings[i] == v.0@ + seq![61u16] + v.1@);
        assert(strings[i].take(v.0@.len() as int) =~= v.0@);
        assert(strings[i].skip(v.0@.len() + 1 as int) =~= v.1@);
    }
    assert(parse_block(encode_block(vars)) =~= var_pairs(vars));
}

proof fn lemma_set_by_origin(s: Seq<EnvChange>, v: EnvVar)
    requires
        set_by(s).to_multiset().count(v) > 0,
    ensures
        exists|i: int| #![trigger s[i]] 0 <= i < s.len() && s[i].1 is Some && v == (s[i].0, s[i].1->0),
    decreases s.len(),
{
    let c = s[0];
    let later = s.drop_first();
    if !mentions(later, c.0@) && c.1 is Some && v == (c.0, c.1->0) {
        assert(s[0] == c);
    } else {
        if !mentions(later, c.0@) && c.1 is Some {
            lemma_count_push(set_by(later), (c.0, c.1->0), v);
        }
        lemma_set_by_origin(later, v);
        let j = choose|j: int|
            #![trigger later[j]]
            0 <= j < later.len() && later[j].1 is Some && v == (later[j].0, later[j].1->0);
        assert(s[j + 1] == later[j]);
    }
}

/// Every variable of the environment is inherited (and the environment not
/// cleared) or set by one of the changes.
pub proof fn law_environment_origin(
    env_clear: bool,
    inherited: Seq<EnvVar>,
    changes: Seq<EnvChange>,
    v: EnvVar,
)
    requires
        environment(env_clear, inherited, changes).contains(v),
    ensures
        (!env_clear && inherited.contains(v)) || exists|i: int|
            #![trigger changes[i]]
            0 <= i < changes.len() && changes[i].1 is Some && v == (changes[i].0, changes[i].1->0),
{
    let base = if env_clear {
        seq![]
    } else {
        inherited
    };
    law_sorted_vars_permutes(resulting_vars(env_clear, inherited, changes));
    vstd::seq_lib::lemma_multiset_commutative(unmentioned(base, changes), set_by(changes));
    lemma_unmentioned_count(base, changes, v);
    vstd::seq_lib::to_multiset_contains(environment(env_clear, inherited, changes), v);
    assert(resulting_vars(env_clear, inherited, changes).to_multiset().count(v) > 0);
    if set_by(changes).to_multiset().count(v) > 0 {
        lemma_set_by_origin(changes, v);
    } else {
        assert(base.to_multiset().count(v) > 0);
        assert(base.contains(v));
    }
}

/// Parsing the block that `build_env_block` builds: when no inherited or
/// changed key holds a NUL or `=` and no value a NUL, splitting the
/// strings of the block at their first `=` gives back exactly the keys and
/// values of the environment, in order.
pub proof fn law_environment_block_parses_back(
    env_clear: bool,
    inherited: Seq<EnvVar>,
    changes: Seq<EnvChange>,
)
    requires
        forall|i: int| 0 <= i < inherited.len() ==> plain_var(#[trigger] inherited[i]),
        forall|i: int|
            #![trigger changes[i]]
            0 <= i < changes.len() ==> lacks(changes[i].0@, 0u16) && lacks(changes[i].0@, 61u16)
                && (changes[i].1 matches Some(val) ==> lacks(val@, 0u16)),
    ensures
        parse_block(encode_block(environment(env_clear, inherited, changes))) == var_pairs(
            environment(env_clear, inherited, changes),
        ),
{
    let env = environment(env_clear, inherited, changes);
    assert forall|i: int| 0 <= i < env.len() implies plain_var(#[trigger] env[i]) by {
        let v = env[i];
        assert(env.contains(v));
        law_environment_origin(env_clear, inherited, changes, v);
        if !env_clear && inherited.contains(v) {
            let j = choose|j: int| 0 <= j < inherited.len() && inherited[j] == v;
            assert(plain_var(inherited[j]));
        } else {
            let j = choose|j: int|
                #![trigger changes[j]]
                0 <= j < changes.len() && changes[j].1 is Some && v == (changes[j].0, changes[j].1->0);
            assert(lacks(changes[j].0@, 0u16));
        }
    }
    law_block_parses_back(env);
}


/// The lexicographic order is antisymmetric.
pub proof fn lemma_lex_antisymmetric(a: Seq<u16>, b: Seq<u16>)
    requires
        lex_le(a, b),
        lex_le(b, a),
    ensures
        a == b,
    decreases a.len(),
{
    if a.len() > 0 && b.len() > 0 {
        assert(a[0] == b[0]);
        lemma_lex_antisymmetric(a.drop_first(), b.drop_first());
        assert(a.len() == b.len());
        assert(a =~= b) by {
            assert forall|i: int| 0 <= i < a.len() implies a[i] == b[i] by {
                if i > 0 {
                    assert(a[i] == a.drop_first()[i - 1]);
                    assert(b[i] == b.drop_first()[i - 1]);
                }
            }
        }
    } else {
        assert(a =~= b);
    }
}

/// Each sort key occurs at most once in `m`: two members with the same
/// sort key are the same variable, and it occurs once.
pub open spec fn distinct_keys(m: Multiset<EnvVar>) -> bool {
    forall|a: EnvVar, b: EnvVar|
        #![trigger m.count(a), m.count(b)]
        m.count(a) > 0 && m.count(b) > 0 && sort_key(a) == sort_key(b) ==> a == b && m.count(a)
            == 1
}

proof fn lemma_sorted_unique(t1: Seq<EnvVar>, t2: Seq<EnvVar>)
    requires
        keys_sorted(t1),
        keys_sorted(t2),
        t1.to_multiset() == t2.to_multiset(),
        distinct_keys(t1.to_multiset()),
    ensures
        t1 == t2,
    decreases t1.len(),
{
    vstd::seq_lib::to_multiset_len(t1);
    vstd::seq_lib::to_multiset_len(t2);
    if t1.len() == 0 {
        assert(t1 =~= t2);
    } else {
        let n = t1.len() - 1;
        let x = t1.last();
        let y = t2.last();
        vstd::seq_lib::to_multiset_contains(t2, y);
        vstd::seq_lib::to_multiset_contains(t1, y);
        vstd::seq_lib::to_multiset_contains(t1, x);
        vstd::seq_lib::to_multiset_contains(t2, x);
        let k = choose|k: int| 0 <= k < t1.len() && t1[k] == y;
        let m = choose|m: int| 0 <= m < t2.len() && t2[m] == x;
        lemma_lex_reflexive(sort_key(x));
        if k < n {
            assert(lex_le(sort_key(t1[k]), sort_key(t1[n])));
        }
        if m < n {
            assert(lex_le(sort_key(t2[m]), sort_key(t2[n])));
        }
        lemma_lex_antisymmetric(sort_key(x), sort_key(y));
        assert(t1.to_multiset().count(x) > 0 && t1.to_multiset().count(y) > 0);
        assert(x == y);
        vstd::seq_lib::to_multiset_remove(t1, n);
        vstd::seq_lib::to_multiset_remove(t2, n);
        assert(t1.remove(n) =~= t1.drop_last());
        assert(t2.remove(n) =~= t2.drop_last());
        let r = t1.to_multiset().remove(x);
        assert forall|a: EnvVar, b: EnvVar|
            #![trigger r.count(a), r.count(b)]
            r.count(a) > 0 && r.count(b) > 0 && sort_key(a) == sort_key(b) implies a == b
                && r.count(a) == 1 by {
            assert(t1.to_multiset().count(a) > 0 && t1.to_multiset().count(b) > 0);
        }
        lemma_sorted_unique(t1.drop_last(), t2.drop_last());
        assert(t1 =~= t1.drop_last().push(x));
        assert(t2 =~= t2.drop_last().push(y));
    }
}

proof fn lemma_last_index_exists(changes: Seq<EnvChange>, k: Seq<u16>)
    requires
        mentions(changes, k),
    ensures
        exists|i: int| #![trigger changes[i]] last_change_for_key(changes, i) && same_key(changes[i].0@, k),
    decreases changes.len(),
{
    let n = changes.len() - 1;
    if same_key(changes[n].0@, k) {
        assert(last_change_for_key(changes, n));
    } else {
        let d = changes.drop_last();
        let w = choose|w: int| #![trigger changes[w]] 0 <= w < changes.len() && same_key(changes[w].0@, k);
        assert(d[w] == changes[w]);
        lemma_last_index_exists(d, k);
        let i = choose|i: int| #![trigger d[i]] last_change_for_key(d, i) && same_key(d[i].0@, k);
        assert(d[i] == changes[i]);
        assert forall|j: int| #![trigger changes[j]] i < j < changes.len() implies !same_key(
            changes[j].0@,
            changes[i].0@,
        ) by {
            if j < n {
                assert(d[j] == changes[j]);
            }
        }
        assert(last_change_for_key(changes, i));
    }
}

proof fn lemma_index_distinct_keys(s: Seq<EnvVar>)
    requires
        forall|i: int, j: int|
            0 <= i < j < s.len() ==> !same_key(#[trigger] s[i].0@, #[trigger] s[j].0@),
    ensures
        distinct_keys(s.to_multiset()),
    decreases s.len(),
{
    if s.len() == 0 {
        assert(s.to_multiset() =~= Multiset::<EnvVar>::empty());
    } else {
        let d = s.drop_last();
        let x = s.last();
        assert forall|i: int, j: int|
            0 <= i < j < d.len() implies !same_key(#[trigger] d[i].0@, #[trigger] d[j].0@) by {
            assert(d[i] == s[i] && d[j] == s[j]);
        }
        lemma_index_distinct_keys(d);
        assert(d.push(x) =~= s);
        let md = d.to_multiset();
        let ms = s.to_multiset();
        assert forall|v: EnvVar| md.count(v) > 0 implies sort_key(v) != sort_key(x) by {
            vstd::seq_lib::to_multiset_contains(d, v);
            let i = choose|i: int| 0 <= i < d.len() && d[i] == v;
            assert(!same_key(s[i].0@, s[s.len() - 1].0@));
        }
        assert(md.count(x) == 0) by {
            if md.count(x) > 0 {
                vstd::seq_lib::to_multiset_contains(d, x);
                let i = choose|i: int| 0 <= i < d.len() && d[i] == x;
                assert(!same_key(s[i].0@, s[s.len() - 1].0@));
            }
        }
        assert forall|a: EnvVar, b: EnvVar|
            #![trigger ms.count(a), ms.count(b)]
            ms.count(a) > 0 && ms.count(b) > 0 && sort_key(a) == sort_key(b) implies a == b
                && ms.count(a) == 1 by {
            lemma_count_push(d, x, a);
            lemma_count_push(d, x, b);
            if a != x && b != x {
                assert(md.count(a) > 0 && md.count(b) > 0);
            }
        }
    }
}

proof fn lemma_distinct_resulting(env_clear: bool, inherited: Seq<EnvVar>, changes: Seq<EnvChange>)
    requires
        !env_clear ==> distinct_keys(inherited.to_multiset()),
    ensures
        distinct_keys(resulting_vars(env_clear, inherited, changes).to_multiset()),
{
    let base = if env_clear {
        seq![]
    } else {
        inherited
    };
    let u = unmentioned(base, changes);
    let w = set_by(changes);
    let m = resulting_vars(env_clear, inherited, changes).to_multiset();
    vstd::seq_lib::lemma_multiset_commutative(u, w);
    assert forall|a: EnvVar, b: EnvVar|
        #![trigger m.count(a), m.count(b)]
        m.count(a) > 0 && m.count(b) > 0 && sort_key(a) == sort_key(b) implies a == b && m.count(a)
            == 1 by {
        lemma_unmentioned_count(base, changes, a);
        lemma_unmentioned_count(base, changes, b);
        if mentions(changes, a.0@) {
            lemma_last_index_exists(changes, a.0@);
            let i = choose|i: int|
                #![trigger changes[i]]
                last_change_for_key(changes, i) && same_key(changes[i].0@, a.0@);
            lemma_set_by_last(changes, i, a);
            lemma_set_by_last(changes, i, b);
        } else {
            assert(!mentions(changes, b.0@)) by {
                if mentions(changes, b.0@) {
                    let j = choose|j: int|
                        #![trigger changes[j]]
                        0 <= j < changes.len() && same_key(changes[j].0@, b.0@);
                    assert(same_key(changes[j].0@, a.0@));
                }
            }
            lemma_set_by_unmentioned(changes, a);
            lemma_set_by_unmentioned(changes, b);
            if env_clear {
                assert(base.to_multiset().count(a) == 0);
            } else {
                assert(inherited.to_multiset().count(a) > 0 && inherited.to_multiset().count(b) > 0);
            }
        }
    }
}

/// Reordering changes whose keys are all different (ignoring ASCII case)
/// leaves the environment, and with it the block, unchanged, provided the
/// inherited keys are all different too when the environment is not
/// cleared.
pub proof fn law_reordered_changes(
    env_clear: bool,
    inherited: Seq<EnvVar>,
    changes: Seq<EnvChange>,
    reordered: Seq<EnvChange>,
)
    requires
        reordered.to_multiset() == changes.to_multiset(),
        forall|i: int, j: int|
            0 <= i < j < changes.len() ==> !same_key(#[trigger] changes[i].0@, #[trigger] changes[j].0@),
        !env_clear ==> forall|i: int, j: int|
            0 <= i < j < inherited.len() ==> !same_key(
                #[trigger] inherited[i].0@,
                #[trigger] inherited[j].0@,
            ),
    ensures
        reordered.len() == changes.len(),
        environment(env_clear, inherited, reordered) == environment(env_clear, inherited, changes),
{
    vstd::seq_lib::to_multiset_len(changes);
    vstd::seq_lib::to_multiset_len(reordered);
    let base = if env_clear {
        seq![]
    } else {
        inherited
    };
    // Both orders name the same keys.
    assert forall|k: Seq<u16>| mentions(changes, k) == mentions(reordered, k) by {
        if mentions(changes, k) {
            let i = choose|i: int| #![trigger changes[i]] 0 <= i < changes.len() && same_key(changes[i].0@, k);
            vstd::seq_lib::to_multiset_contains(changes, changes[i]);
            vstd::seq_lib::to_multiset_contains(reordered, changes[i]);
            let j = choose|j: int| 0 <= j < reordered.len() && reordered[j] == changes[i];
            assert(same_key(reordered[j].0@, k));
        }
        if mentions(reordered, k) {
            let i = choose|i: int| #![trigger reordered[i]] 0 <= i < reordered.len() && same_key(reordered[i].0@, k);
            vstd::seq_lib::to_multiset_contains(reordered, reordered[i]);
            vstd::seq_lib::to_multiset_contains(changes, reordered[i]);
            let j = choose|j: int| 0 <= j < changes.len() && changes[j] == reordered[i];
            assert(same_key(changes[j].0@, k));
        }
    }
    lemma_unmentioned_same(base, changes, reordered);
    // Both orders set the same variables.
    let w1 = set_by(changes);
    let w2 = set_by(reordered);
    assert forall|v: EnvVar| w1.to_multiset().count(v) == w2.to_multiset().count(v) by {
        if mentions(changes, v.0@) {
            lemma_last_index_exists(changes, v.0@);
            lemma_last_index_exists(reordered, v.0@);
            let i = choose|i: int|
                #![trigger changes[i]]
                last_change_for_key(changes, i) && same_key(changes[i].0@, v.0@);
            let j = choose|j: int|
                #![trigger reordered[j]]
                last_change_for_key(reordered, j) && same_key(reordered[j].0@, v.0@);
            vstd::seq_lib::to_multiset_contains(reordered, reordered[j]);
            vstd::seq_lib::to_multiset_contains(changes, reordered[j]);
            let a = choose|a: int| 0 <= a < changes.len() && changes[a] == reordered[j];
            assert(same_key(changes[a].0@, changes[i].0@));
            if a < i {
                assert(!same_key(changes[a].0@, changes[i].0@));
            } else if i < a {
                assert(!same_key(changes[i].0@, changes[a].0@));
            }
            lemma_set_by_last(changes, i, v);
            lemma_set_by_last(reordered, j, v);
        } else {
            lemma_set_by_unmentioned(changes, v);
            lemma_set_by_unmentioned(reordered, v);
        }
    }
    assert(w1.to_multiset() =~= w2.to_multiset());
    let r1 = resulting_vars(env_clear, inherited, changes);
    let r2 = resulting_vars(env_clear, inherited, reordered);
    vstd::seq_lib::lemma_multiset_commutative(unmentioned(base, changes), w1);
    vstd::seq_lib::lemma_multiset_commutative(unmentioned(base, reordered), w2);
    assert(r1.to_multiset() =~= r2.to_multiset());
    if !env_clear {
        lemma_index_distinct_keys(inherited);
    }
    lemma_distinct_resulting(env_clear, inherited, changes);
    law_sorted_vars_ordered(r1);
    law_sorted_vars_ordered(r2);
    law_sorted_vars_permutes(r1);
    law_sorted_vars_permutes(r2);
    lemma_sorted_unique(sorted_vars(r2), sorted_vars(r1));
}


/// ASCII-lowercasing turns each of `A`..=`Z` (65..=90) into `a`..=`z` (add
/// 32) and leaves every other code unit as it is.
pub proof fn law_lower_unit(c: u16)
    ensures
        65 <= c <= 90 ==> lower_unit(c) as int == c as int + 32,
        !(65 <= c <= 90) ==> lower_unit(c) == c,
{
}

/// Lowering a string lowers each of its code units and keeps its length.
pub proof fn law_ascii_lower(s: Seq<u16>)
    ensures
        ascii_lower(s).len() == s.len(),
        forall|i: int|
            0 <= i < s.len() ==> (#[trigger] ascii_lower(s)[i]) as int == (if 65 <= s[i] <= 90 {
                s[i] as int + 32
            } else {
                s[i] as int
            }),
{
}

/// Two keys are the same key exactly when they have the same length and,
/// position by position, the code units are equal or one is an ASCII
/// capital and the other its small letter.
pub proof fn law_same_key_ignores_ascii_case(a: Seq<u16>, b: Seq<u16>)
    ensures
        same_key(a, b) <==> (a.len() == b.len() && forall|i: int|
            #![trigger a[i], b[i]]
            0 <= i < a.len() ==> (a[i] == b[i] || (65 <= a[i] <= 90 && b[i] as int == a[i] as int
                + 32) || (65 <= b[i] <= 90 && a[i] as int == b[i] as int + 32))),
{
    if same_key(a, b) {
        assert forall|i: int| #![trigger a[i], b[i]] 0 <= i < a.len() implies (a[i] == b[i] || (65
            <= a[i] <= 90 && b[i] as int == a[i] as int + 32) || (65 <= b[i] <= 90 && a[i] as int
            == b[i] as int + 32)) by {
            assert(ascii_lower(a)[i] == ascii_lower(b)[i]);
        }
    }
    if a.len() == b.len() && forall|i: int|
        #![trigger a[i], b[i]]
        0 <= i < a.len() ==> (a[i] == b[i] || (65 <= a[i] <= 90 && b[i] as int == a[i] as int + 32)
            || (65 <= b[i] <= 90 && a[i] as int == b[i] as int + 32)) {
        assert forall|i: int| 0 <= i < a.len() implies ascii_lower(a)[i] == ascii_lower(b)[i] by {
            assert(a[i] == b[i] || (65 <= a[i] <= 90 && b[i] as int == a[i] as int + 32) || (65
                <= b[i] <= 90 && a[i] as int == b[i] as int + 32));
        }
        assert(ascii_lower(a) =~= ascii_lower(b));
    }
}

/// The order of keys is the lexicographic order: `a` comes at or before
/// `b` exactly when `a` is a prefix of `b`, or at the first position where
/// they differ `a` has the smaller code unit.
pub proof fn law_lex_le_is_lexicographic(a: Seq<u16>, b: Seq<u16>)
    ensures
        lex_le(a, b) <==> ((a.len() <= b.len() && a =~= b.take(a.len() as int)) || exists|i: int|
            0 <= i < a.len() && i < b.len() && a.take(i) =~= b.take(i) && #[trigger] a[i] < b[i]),
    decreases a.len(),
{
    if a.len() == 0 {
        assert(a =~= b.take(0));
    } else if b.len() == 0 {
    } else {
        let a1 = a.drop_first();
        let b1 = b.drop_first();
        law_lex_le_is_lexicographic(a1, b1);
        if a[0] < b[0] {
            assert(a.take(0) =~= b.take(0));
            assert(a[0] < b[0]);
        } else if a[0] > b[0] {
            if a.len() <= b.len() {
                assert(b.take(a.len() as int)[0] == b[0]);
                assert(!(a =~= b.take(a.len() as int)));
            }
            assert forall|i: int| 0 <= i < a.len() && i < b.len() && a.take(i) =~= b.take(i)
                implies !(#[trigger] a[i] < b[i]) by {
                if i > 0 {
                    assert(a.take(i)[0] == b.take(i)[0]);
                }
            }
        } else {
            if a.len() <= b.len() && a =~= b.take(a.len() as int) {
                assert(a1 =~= b1.take(a1.len() as int)) by {
                    assert forall|j: int| 0 <= j < a1.len() implies #[trigger] a1[j] == b1.take(a1.len() as int)[j] by {
                        assert(a[j + 1] == b.take(a.len() as int)[j + 1]);
                    }
                }
            }
            if a1.len() <= b1.len() && a1 =~= b1.take(a1.len() as int) {
                assert(a =~= b.take(a.len() as int)) by {
                    assert forall|j: int| 0 <= j < a.len() implies #[trigger] a[j] == b.take(a.len() as int)[j] by {
                        if j > 0 {
                            assert(a1[j - 1] == b1.take(a1.len() as int)[j - 1]);
                        }
                    }
                }
            }
            if exists|i: int| 0 <= i < a.len() && i < b.len() && a.take(i) =~= b.take(i) && #[trigger] a[i] < b[i] {
                let i = choose|i: int| 0 <= i < a.len() && i < b.len() && a.take(i) =~= b.take(i) && #[trigger] a[i] < b[i];
                assert(i > 0);
                assert(a1.take(i - 1) =~= b1.take(i - 1)) by {
                    assert forall|j: int| 0 <= j < i - 1 implies #[trigger] a1.take(i - 1)[j] == b1.take(i - 1)[j] by {
                        assert(a.take(i)[j + 1] == b.take(i)[j + 1]);
                    }
                }
                assert(a1[i - 1] < b1[i - 1]);
            }
            if exists|i: int| 0 <= i < a1.len() && i < b1.len() && a1.take(i) =~= b1.take(i) && #[trigger] a1[i] < b1[i] {
                let i = choose|i: int| 0 <= i < a1.len() && i < b1.len() && a1.take(i) =~= b1.take(i) && #[trigger] a1[i] < b1[i];
                assert(a.take(i + 1) =~= b.take(i + 1)) by {
                    assert forall|j: int| 0 <= j < i + 1 implies #[trigger] a.take(i + 1)[j] == b.take(i + 1)[j] by {
                        if j > 0 {
                            assert(a1.take(i)[j - 1] == b1.take(i)[j - 1]);
                        }
                    }
                }
                assert(a[i + 1] < b[i + 1]);
            }
        }
    }
}

} // verus!
