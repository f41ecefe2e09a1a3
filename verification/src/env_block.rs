use vstd::prelude::*;

verus! {

/// An environment variable of a child process: its key and its value, in
/// UTF-16 code units.
pub type EnvVar = (Vec<u16>, Vec<u16>);

/// A requested change to the environment of a child process: the key, and
/// `Some(value)` to set it or `None` to remove it.
pub type EnvChange = (Vec<u16>, Option<Vec<u16>>);

/// ASCII-lowercases one UTF-16 code unit: `A`..=`Z` become `a`..=`z`,
/// every other unit stays as it is.
pub open spec fn lower_unit(c: u16) -> u16 {
    if 65 <= c && c <= 90 {
        (c + 32) as u16
    } else {
        c
    }
}

/// ASCII-lowercases every code unit of `s` (no other case folding).
pub open spec fn ascii_lower(s: Seq<u16>) -> Seq<u16> {
    Seq::new(s.len(), |i: int| lower_unit(s[i]))
}

/// Two keys name the same variable when they are equal after
/// ASCII-lowercasing.
pub open spec fn same_key(a: Seq<u16>, b: Seq<u16>) -> bool {
    ascii_lower(a) == ascii_lower(b)
}

/// Lexicographic order on code-unit sequences (`a <= b`), the order of
/// `Vec<u16>`'s `Ord`: a proper prefix comes first.
pub open spec fn lex_le(a: Seq<u16>, b: Seq<u16>) -> bool
    decreases a.len(),
{
    if a.len() == 0 {
        true
    } else if b.len() == 0 {
        false
    } else if a[0] != b[0] {
        a[0] < b[0]
    } else {
        lex_le(a.drop_first(), b.drop_first())
    }
}

fn lower_code_unit(c: u16) -> (r: u16)
    ensures
        r == lower_unit(c),
{
    if 65 <= c && c <= 90 {
        c + 32
    } else {
        c
    }
}

/// ASCII-lowercases a wide string: `A`..=`Z` become `a`..=`z`; no other
/// case folding is applied.
pub fn ascii_lower_wide(s: &Vec<u16>) -> (r: Vec<u16>)
    ensures
        r@ == ascii_lower(s@),
{
    let mut r: Vec<u16> = Vec::new();
    let mut i: usize = 0;
    while i < s.len()
        invariant
            i <= s.len(),
            r@ =~= ascii_lower(s@).take(i as int),
        decreases s.len() - i,
    {
        r.push(lower_code_unit(s[i]));
        i += 1;
    }
    r
}

/// Compares two environment variable keys ignoring ASCII case.
pub fn eq_ignore_ascii_case(a: &Vec<u16>, b: &Vec<u16>) -> (r: bool)
    ensures
        r == same_key(a@, b@),
{
    if a.len() != b.len() {
        assert(ascii_lower(a@).len() != ascii_lower(b@).len());
        return false;
    }
    let mut i: usize = 0;
    while i < a.len()
        invariant
            a.len() == b.len(),
            i <= a.len(),
            forall|j: int| 0 <= j < i ==> lower_unit(a@[j]) == lower_unit(b@[j]),
        decreases a.len() - i,
    {
        if lower_code_unit(a[i]) != lower_code_unit(b[i]) {
            assert(ascii_lower(a@)[i as int] != ascii_lower(b@)[i as int]);
            return false;
        }
        i += 1;
    }
    assert(ascii_lower(a@) =~= ascii_lower(b@));
    true
}

/// Whether `a`'s key sorts at or before `b`'s: compares the
/// ASCII-lowercased keys lexicographically.
pub fn key_le(a: &Vec<u16>, b: &Vec<u16>) -> (r: bool)
    ensures
        r == lex_le(ascii_lower(a@), ascii_lower(b@)),
{
    let ghost la = ascii_lower(a@);
    let ghost lb = ascii_lower(b@);
    assert(la.skip(0) =~= la);
    assert(lb.skip(0) =~= lb);
    let mut i: usize = 0;
    loop
        invariant
            i <= a.len(),
            i <= b.len(),
            la == ascii_lower(a@),
            lb == ascii_lower(b@),
            lex_le(la, lb) == lex_le(la.skip(i as int), lb.skip(i as int)),
        decreases a.len() - i,
    {
        if i == a.len() {
            return true;
        }
        if i == b.len() {
            return false;
        }
        let x = lower_code_unit(a[i]);
        let y = lower_code_unit(b[i]);
        assert(la.skip(i as int)[0] == x);
        assert(lb.skip(i as int)[0] == y);
        if x != y {
            return x < y;
        }
        assert(la.skip(i as int).drop_first() =~= la.skip(i + 1));
        assert(lb.skip(i as int).drop_first() =~= lb.skip(i + 1));
        i += 1;
    }
}


/// Whether some change in `changes` names `key` (ignoring ASCII case).
pub open spec fn mentions(changes: Seq<EnvChange>, key: Seq<u16>) -> bool {
    exists|i: int| #![trigger changes[i]] 0 <= i < changes.len() && same_key(changes[i].0@, key)
}

/// The variables of `vars`, in their order, whose key no change in
/// `changes` names.
pub open spec fn unmentioned(vars: Seq<EnvVar>, changes: Seq<EnvChange>) -> Seq<EnvVar>
    decreases vars.len(),
{
    if vars.len() == 0 {
        seq![]
    } else {
        let rest = unmentioned(vars.drop_last(), changes);
        if mentions(changes, vars.last().0@) {
            rest
        } else {
            rest.push(vars.last())
        }
    }
}

/// The variables of `vars`, in their order, whose key is not `key`
/// (ignoring ASCII case).
pub open spec fn without_key(vars: Seq<EnvVar>, key: Seq<u16>) -> Seq<EnvVar>
    decreases vars.len(),
{
    if vars.len() == 0 {
        seq![]
    } else {
        let rest = without_key(vars.drop_last(), key);
        if same_key(vars.last().0@, key) {
            rest
        } else {
            rest.push(vars.last())
        }
    }
}

/// The variables that `changes` set: for each change that is the last one
/// for its key (ignoring ASCII case) and that sets a value, that key and
/// value. They are listed from the last change to the first.
pub open spec fn set_by(changes: Seq<EnvChange>) -> Seq<EnvVar>
    decreases changes.len(),
{
    if changes.len() == 0 {
        seq![]
    } else {
        let c = changes[0];
        let later = changes.drop_first();
        let rest = set_by(later);
        if !mentions(later, c.0@) && c.1 is Some {
            rest.push((c.0, c.1->0))
        } else {
            rest
        }
    }
}

/// The variables of the child before ordering: the inherited ones (none
/// when the environment is cleared) whose key no change names, then the
/// ones that the changes set.
pub open spec fn resulting_vars(
    env_clear: bool,
    inherited: Seq<EnvVar>,
    changes: Seq<EnvChange>,
) -> Seq<EnvVar> {
    let base = if env_clear {
        seq![]
    } else {
        inherited
    };
    unmentioned(base, changes) + set_by(changes)
}

/// The key by which variables are ordered: the ASCII-lowercased key.
pub open spec fn sort_key(v: EnvVar) -> Seq<u16> {
    ascii_lower(v.0@)
}

/// Where `v` goes in `sorted`: after the last variable whose sort key is
/// at or before `v`'s.
pub open spec fn insertion_point(sorted: Seq<EnvVar>, v: EnvVar) -> int
    decreases sorted.len(),
{
    if sorted.len() == 0 {
        0
    } else if lex_le(sort_key(sorted.last()), sort_key(v)) {
        sorted.len() as int
    } else {
        insertion_point(sorted.drop_last(), v)
    }
}

/// `vars` ordered by sort key; variables with equal sort keys keep their
/// relative order (a stable sort, by insertion).
pub open spec fn sorted_vars(vars: Seq<EnvVar>) -> Seq<EnvVar>
    decreases vars.len(),
{
    if vars.len() == 0 {
        seq![]
    } else {
        let s = sorted_vars(vars.drop_last());
        s.insert(insertion_point(s, vars.last()), vars.last())
    }
}

/// The environment of the child: the resulting variables in sorted order.
pub open spec fn environment(
    env_clear: bool,
    inherited: Seq<EnvVar>,
    changes: Seq<EnvChange>,
) -> Seq<EnvVar> {
    sorted_vars(resulting_vars(env_clear, inherited, changes))
}

/// One variable in a block: `KEY=VALUE` and a NUL.
pub open spec fn encode_var(v: EnvVar) -> Seq<u16> {
    v.0@ + seq![61u16] + v.1@ + seq![0u16]
}

/// The variables one after the other, each encoded by `encode_var`.
pub open spec fn encode_vars(vars: Seq<EnvVar>) -> Seq<u16>
    decreases vars.len(),
{
    if vars.len() == 0 {
        seq![]
    } else {
        encode_vars(vars.drop_last()) + encode_var(vars.last())
    }
}

/// A Windows environment block: the encoded variables and one more NUL
/// (two NULs when there is no variable).
pub open spec fn encode_block(vars: Seq<EnvVar>) -> Seq<u16> {
    if vars.len() == 0 {
        seq![0u16, 0u16]
    } else {
        encode_vars(vars) + seq![0u16]
    }
}

fn same_units(a: &Vec<u16>, b: &Vec<u16>) -> (r: bool)
    ensures
        r == (a@ == b@),
{
    if a.len() != b.len() {
        return false;
    }
    let mut i: usize = 0;
    while i < a.len()
        invariant
            a.len() == b.len(),
            i <= a.len(),
            forall|j: int| 0 <= j < i ==> a@[j] == b@[j],
        decreases a.len() - i,
    {
        if a[i] != b[i] {
            return false;
        }
        i += 1;
    }
    assert(a@ =~= b@);
    true
}

fn contains_units(list: &Vec<Vec<u16>>, s: &Vec<u16>) -> (r: bool)
    ensures
        r == exists|j: int| 0 <= j < list@.len() && #[trigger] list@[j]@ == s@,
{
    let mut i: usize = 0;
    while i < list.len()
        invariant
            i <= list.len(),
            forall|j: int| 0 <= j < i ==> #[trigger] list@[j]@ != s@,
        decreases list.len() - i,
    {
        if same_units(&list[i], s) {
            return true;
        }
        i += 1;
    }
    false
}

fn remove_key(vars: Vec<EnvVar>, key: &Vec<u16>) -> (r: Vec<EnvVar>)
    ensures
        r@ == without_key(vars@, key@),
{
    let ghost orig = vars@;
    let mut rest = vars;
    let mut kept: Vec<EnvVar> = Vec::new();
    while rest.len() > 0
        invariant
            rest@.len() <= orig.len(),
            rest@ == orig.skip(orig.len() - rest@.len()),
            kept@ == without_key(orig.take(orig.len() - rest@.len()), key@),
        decreases rest.len(),
    {
        let ghost k = orig.len() - rest@.len();
        assert(rest@[0] == orig[k]);
        let v = rest.remove(0);
        assert(orig.take(k + 1).drop_last() =~= orig.take(k));
        assert(orig.take(k + 1).last() == v);
        if !eq_ignore_ascii_case(&v.0, key) {
            kept.push(v);
        }
        assert(rest@ =~= orig.skip(k + 1));
    }
    assert(orig.take(orig.len() as int) =~= orig);
    kept
}

fn insertion_index(sorted: &Vec<EnvVar>, v: &EnvVar) -> (p: usize)
    ensures
        p == insertion_point(sorted@, *v),
        p <= sorted.len(),
{
    let mut p: usize = sorted.len();
    assert(sorted@.take(p as int) =~= sorted@);
    while p > 0
        invariant
            p <= sorted.len(),
            insertion_point(sorted@, *v) == insertion_point(sorted@.take(p as int), *v),
        decreases p,
    {
        assert(sorted@.take(p as int).last() == sorted@[p - 1]);
        if key_le(&sorted[p - 1].0, &v.0) {
            return p;
        }
        assert(sorted@.take(p as int).drop_last() =~= sorted@.take(p - 1));
        p -= 1;
    }
    p
}

fn sort_vars(vars: Vec<EnvVar>) -> (r: Vec<EnvVar>)
    ensures
        r@ == sorted_vars(vars@),
{
    let ghost orig = vars@;
    let mut rest = vars;
    let mut out: Vec<EnvVar> = Vec::new();
    while rest.len() > 0
        invariant
            rest@.len() <= orig.len(),
            rest@ == orig.skip(orig.len() - rest@.len()),
            out@ == sorted_vars(orig.take(orig.len() - rest@.len())),
        decreases rest.len(),
    {
        let ghost k = orig.len() - rest@.len();
        assert(rest@[0] == orig[k]);
        let v = rest.remove(0);
        assert(orig.take(k + 1).drop_last() =~= orig.take(k));
        assert(orig.take(k + 1).last() == v);
        let p = insertion_index(&out, &v);
        out.insert(p, v);
        assert(rest@ =~= orig.skip(k + 1));
    }
    assert(orig.take(orig.len() as int) =~= orig);
    out
}

pub(crate) fn append_units(out: &mut Vec<u16>, s: &Vec<u16>)
    ensures
        final(out)@ == old(out)@ + s@,
{
    let mut i: usize = 0;
    while i < s.len()
        invariant
            i <= s.len(),
            out@ == old(out)@ + s@.take(i as int),
        decreases s.len() - i,
    {
        out.push(s[i]);
        i += 1;
        assert(out@ =~= old(out)@ + s@.take(i as int));
    }
    assert(s@.take(s.len() as int) =~= s@);
}

fn encode_block_units(vars: &Vec<EnvVar>) -> (r: Vec<u16>)
    ensures
        r@ == encode_block(vars@),
{
    let mut block: Vec<u16> = Vec::new();
    let mut i: usize = 0;
    while i < vars.len()
        invariant
            i <= vars.len(),
            block@ == encode_vars(vars@.take(i as int)),
        decreases vars.len() - i,
    {
        let ghost before = block@;
        append_units(&mut block, &vars[i].0);
        block.push(61u16);
        append_units(&mut block, &vars[i].1);
        block.push(0u16);
        assert(vars@.take(i + 1).drop_last() =~= vars@.take(i as int));
        assert(block@ =~= before + encode_var(vars@[i as int]));
        i += 1;
    }
    assert(vars@.take(vars.len() as int) =~= vars@);
    if vars.len() == 0 {
        block.push(0u16);
        block.push(0u16);
        assert(block@ =~= seq![0u16, 0u16]);
    } else {
        block.push(0u16);
    }
    block
}


pub(crate) proof fn lemma_mentions_first(s: Seq<EnvChange>, key: Seq<u16>)
    requires
        s.len() > 0,
    ensures
        mentions(s, key) <==> (same_key(s[0].0@, key) || mentions(s.drop_first(), key)),
{
    if mentions(s, key) {
        let i = choose|i: int| #![trigger s[i]] 0 <= i < s.len() && same_key(s[i].0@, key);
        if i > 0 {
            assert(s.drop_first()[i - 1] == s[i]);
        }
    }
    if mentions(s.drop_first(), key) {
        let j = choose|j: int|
            #![trigger s.drop_first()[j]]
            0 <= j < s.drop_first().len() && same_key(s.drop_first()[j].0@, key);
        assert(s[j + 1] == s.drop_first()[j]);
    }
}

proof fn lemma_unmentioned_nothing(vars: Seq<EnvVar>, changes: Seq<EnvChange>)
    requires
        changes.len() == 0,
    ensures
        unmentioned(vars, changes) == vars,
    decreases vars.len(),
{
    if vars.len() > 0 {
        lemma_unmentioned_nothing(vars.drop_last(), changes);
        assert(vars.drop_last().push(vars.last()) =~= vars);
    }
}

pub(crate) proof fn lemma_unmentioned_same(vars: Seq<EnvVar>, a: Seq<EnvChange>, b: Seq<EnvChange>)
    requires
        forall|k: Seq<u16>| mentions(a, k) == mentions(b, k),
    ensures
        unmentioned(vars, a) == unmentioned(vars, b),
    decreases vars.len(),
{
    if vars.len() > 0 {
        lemma_unmentioned_same(vars.drop_last(), a, b);
    }
}

proof fn lemma_without_unmentioned(vars: Seq<EnvVar>, s: Seq<EnvChange>)
    requires
        s.len() > 0,
    ensures
        without_key(unmentioned(vars, s.drop_first()), s[0].0@) == unmentioned(vars, s),
    decreases vars.len(),
{
    if vars.len() > 0 {
        lemma_without_unmentioned(vars.drop_last(), s);
        lemma_mentions_first(s, vars.last().0@);
        let rest = unmentioned(vars.drop_last(), s.drop_first());
        if !mentions(s.drop_first(), vars.last().0@) {
            assert(rest.push(vars.last()).drop_last() =~= rest);
        }
    }
}

proof fn lemma_without_concat(a: Seq<EnvVar>, b: Seq<EnvVar>, key: Seq<u16>)
    ensures
        without_key(a + b, key) == without_key(a, key) + without_key(b, key),
    decreases b.len(),
{
    if b.len() == 0 {
        assert(a + b =~= a);
        assert(without_key(a, key) + without_key(b, key) =~= without_key(a, key));
    } else {
        lemma_without_concat(a, b.drop_last(), key);
        assert((a + b).drop_last() =~= a + b.drop_last());
        assert((a + b).last() == b.last());
        if !same_key(b.last().0@, key) {
            assert(without_key(a, key) + without_key(b.drop_last(), key).push(b.last())
                =~= (without_key(a, key) + without_key(b.drop_last(), key)).push(b.last()));
        }
    }
}

proof fn lemma_without_set_by(s: Seq<EnvChange>, key: Seq<u16>)
    requires
        !mentions(s, key),
    ensures
        without_key(set_by(s), key) == set_by(s),
    decreases s.len(),
{
    if s.len() > 0 {
        lemma_mentions_first(s, key);
        lemma_without_set_by(s.drop_first(), key);
        let rest = set_by(s.drop_first());
        let c = s[0];
        if !mentions(s.drop_first(), c.0@) && c.1 is Some {
            assert(rest.push((c.0, c.1->0)).drop_last() =~= rest);
        }
    }
}

proof fn lemma_skip_first(changes: Seq<EnvChange>, i: int)
    requires
        0 <= i < changes.len(),
    ensures
        changes.skip(i).len() > 0,
        changes.skip(i)[0] == changes[i],
        changes.skip(i).drop_first() == changes.skip(i + 1),
{
    assert(changes.skip(i).drop_first() =~= changes.skip(i + 1));
}

/// Builds the environment block that `CreateProcessW` receives for a child.
///
/// With `env_clear` false and no change there is nothing to build: `None`
/// tells the caller to pass no block, so that the child inherits the
/// environment of the current process. Otherwise the block starts from
/// `inherited` (the environment of the current process), or from nothing
/// when `env_clear` is set; for each key (ignoring ASCII case) the last
/// change wins, setting or removing it; the variables are ordered by their
/// ASCII-lowercased key and written as `KEY=VALUE\0 ... \0`.
pub fn build_env_block(
    env_clear: bool,
    env_vars: Vec<EnvChange>,
    inherited: Vec<EnvVar>,
) -> (r: Option<Vec<u16>>)
    ensures
        r is None <==> (!env_clear && env_vars@.len() == 0),
        r matches Some(block) ==> block@ == encode_block(
            environment(env_clear, inherited@, env_vars@),
        ),
{
    if !env_clear && env_vars.len() == 0 {
        return None;
    }
    let ghost changes = env_vars@;
    let mut vars: Vec<EnvVar> = if env_clear {
        Vec::new()
    } else {
        inherited
    };
    let ghost base = vars@;
    assert(changes.skip(changes.len() as int) =~= Seq::<EnvChange>::empty());
    proof {
        lemma_unmentioned_nothing(base, changes.skip(changes.len() as int));
        assert(base + set_by(changes.skip(changes.len() as int)) =~= base);
        assert(changes.take(changes.len() as int) =~= changes);
    }
    let mut pending = env_vars;
    let mut seen: Vec<Vec<u16>> = Vec::new();
    while pending.len() > 0
        invariant
            pending@.len() <= changes.len(),
            pending@ == changes.take(pending@.len() as int),
            vars@ == unmentioned(base, changes.skip(pending@.len() as int)) + set_by(
                changes.skip(pending@.len() as int),
            ),
            forall|k: Seq<u16>|
                (exists|j: int| 0 <= j < seen@.len() && #[trigger] seen@[j]@ == ascii_lower(k))
                    <==> mentions(changes.skip(pending@.len() as int), k),
        decreases pending.len(),
    {
        let ghost i = pending@.len() - 1;
        let ghost later = changes.skip(i + 1);
        let ghost here = changes.skip(i);
        proof {
            lemma_skip_first(changes, i);
        }
        let (key, val) = pending.pop().unwrap();
        assert(pending@ =~= changes.take(i));
        assert((key, val) == changes[i]);
        let lowered = ascii_lower_wide(&key);
        if contains_units(&seen, &lowered) {
            proof {
                let j = choose|j: int| 0 <= j < seen@.len() && #[trigger] seen@[j]@ == lowered@;
                assert(seen@[j]@ == ascii_lower(key@));
                assert(mentions(later, key@));
                assert forall|k: Seq<u16>| mentions(here, k) == mentions(later, k) by {
                    lemma_mentions_first(here, k);
                    if same_key(key@, k) {
                        let m = choose|m: int|
                            #![trigger later[m]]
                            0 <= m < later.len() && same_key(later[m].0@, key@);
                        assert(same_key(later[m].0@, k));
                    }
                }
                lemma_unmentioned_same(base, here, later);
            }
        } else {
            proof {
                assert forall|k: Seq<u16>| mentions(later, k) implies !same_key(key@, k) by {
                    if same_key(key@, k) {
                        let j = choose|j: int|
                            0 <= j < seen@.len() && #[trigger] seen@[j]@ == ascii_lower(k);
                        assert(seen@[j]@ == lowered@);
                    }
                }
                assert(!mentions(later, key@));
            }
            let ghost old_seen = seen@;
            seen.push(lowered);
            proof {
                assert forall|k: Seq<u16>|
                    (exists|j: int| 0 <= j < seen@.len() && #[trigger] seen@[j]@ == ascii_lower(k))
                        <==> mentions(here, k) by {
                    lemma_mentions_first(here, k);
                    if exists|j: int| 0 <= j < seen@.len() && #[trigger] seen@[j]@ == ascii_lower(k) {
                        let j = choose|j: int|
                            0 <= j < seen@.len() && #[trigger] seen@[j]@ == ascii_lower(k);
                        if j < old_seen.len() {
                            assert(old_seen[j]@ == ascii_lower(k));
                        }
                    }
                    if mentions(later, k) {
                        let j = choose|j: int|
                            0 <= j < old_seen.len() && #[trigger] old_seen[j]@ == ascii_lower(k);
                        assert(seen@[j] == old_seen[j]);
                    }
                    if same_key(key@, k) {
                        assert(seen@[old_seen.len() as int]@ == ascii_lower(k));
                    }
                }
            }
            vars = remove_key(vars, &key);
            proof {
                lemma_without_concat(unmentioned(base, later), set_by(later), key@);
                lemma_without_unmentioned(base, here);
                lemma_without_set_by(later, key@);
            }
            match val {
                Some(v) => {
                    vars.push((key, v));
                },
                None => {},
            }
        }
    }
    assert(changes.skip(0) =~= changes);
    let sorted = sort_vars(vars);
    Some(encode_block_units(&sorted))
}

} // verus!
