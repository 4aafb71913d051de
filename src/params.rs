use vstd::prelude::*;

verus! {

/// The value of one named parameter of a tensor.
#[derive(Debug, Clone, PartialEq, Eq)]
pub enum ParamValue {
    Bool(bool),
    Int64(i64),
    Text(String),
}

/// One named parameter. Within a list of parameters a later entry stands over
/// an earlier one of the same name.
#[derive(Debug, Clone, PartialEq, Eq)]
pub struct Param {
    pub key: String,
    pub value: ParamValue,
}

/// The value that `ps` gives `key`: that of its last entry of that name.
pub open spec fn param_lookup(ps: Seq<Param>, key: Seq<char>) -> Option<ParamValue>
    decreases ps.len(),
{
    if ps.len() == 0 {
        None
    } else if ps.last().key@ == key {
        Some(ps.last().value)
    } else {
        param_lookup(ps.drop_last(), key)
    }
}

/// `ps` without its entries named `key`, the others in their order.
pub open spec fn without_key(ps: Seq<Param>, key: Seq<char>) -> Seq<Param>
    decreases ps.len(),
{
    if ps.len() == 0 {
        ps
    } else if ps.last().key@ == key {
        without_key(ps.drop_last(), key)
    } else {
        without_key(ps.drop_last(), key).push(ps.last())
    }
}

/// Whether some entry of `ps` is named `key`.
pub open spec fn has_key(ps: Seq<Param>, key: Seq<char>) -> bool {
    exists|i: int| 0 <= i < ps.len() && #[trigger] ps[i].key@ == key
}

/// Removing a name leaves no entry of it and the others' values as they were.
pub proof fn lemma_without_key(ps: Seq<Param>, key: Seq<char>, other: Seq<char>)
    ensures
        param_lookup(without_key(ps, key), key) is None,
        !has_key(without_key(ps, key), key),
        other != key ==> param_lookup(without_key(ps, key), other) == param_lookup(ps, other),
    decreases ps.len(),
{
    if ps.len() > 0 {
        lemma_without_key(ps.drop_last(), key, other);
        let w = without_key(ps.drop_last(), key);
        if ps.last().key@ != key {
            assert(w.push(ps.last()).drop_last() =~= w);
            assert forall|i: int| 0 <= i < w.push(ps.last()).len() implies #[trigger] w.push(
                ps.last(),
            )[i].key@ != key by {
                if i < w.len() {
                    assert(w.push(ps.last())[i] == w[i]);
                }
            }
        }
    }
}

/// Removing a name brings no other name in.
pub proof fn lemma_without_key_keeps(ps: Seq<Param>, key: Seq<char>, other: Seq<char>)
    ensures
        has_key(without_key(ps, key), other) ==> has_key(ps, other),
    decreases ps.len(),
{
    if ps.len() > 0 {
        lemma_without_key_keeps(ps.drop_last(), key, other);
        let w = without_key(ps.drop_last(), key);
        if has_key(without_key(ps, key), other) {
            let t = choose|t: int|
                0 <= t < without_key(ps, key).len() && #[trigger] without_key(ps, key)[t].key@
                    == other;
            if ps.last().key@ != key && t == w.len() {
                assert(ps[ps.len() - 1].key@ == other);
            } else {
                assert(without_key(ps, key)[t] == w[t]);
                assert(w[t].key@ == other);
                let u = choose|u: int|
                    0 <= u < ps.drop_last().len() && #[trigger] ps.drop_last()[u].key@ == other;
                assert(ps[u].key@ == other);
            }
        }
    }
}

/// `ps` with `key` set to `value` and every earlier entry of that name gone.
pub open spec fn with_param(ps: Seq<Param>, key: String, value: ParamValue) -> Seq<Param> {
    without_key(ps, key@).push(Param { key, value })
}

/// Setting a name gives it the new value and leaves the others as they were.
pub proof fn lemma_with_param(ps: Seq<Param>, key: String, value: ParamValue, other: Seq<char>)
    ensures
        param_lookup(with_param(ps, key, value), key@) == Some(value),
        other != key@ ==> param_lookup(with_param(ps, key, value), other) == param_lookup(ps, other),
{
    lemma_without_key(ps, key@, other);
    assert(with_param(ps, key, value).drop_last() =~= without_key(ps, key@));
}

/// Where the entry that gives `key` its value stands in `ps`.
pub fn find_param(ps: &Vec<Param>, key: &String) -> (r: Option<usize>)
    ensures
        match r {
            Some(i) => i < ps@.len() && param_lookup(ps@, key@) == Some(ps@[i as int].value),
            None => param_lookup(ps@, key@) is None,
        },
{
    let mut i: usize = ps.len();
    assert(ps@.take(i as int) =~= ps@);
    while i > 0
        invariant
            i <= ps@.len(),
            param_lookup(ps@, key@) == param_lookup(ps@.take(i as int), key@),
        decreases i,
    {
        assert(ps@.take(i as int).drop_last() =~= ps@.take(i - 1));
        if ps[i - 1].key == *key {
            return Some(i - 1);
        }
        i = i - 1;
    }
    assert(ps@.take(0) =~= Seq::<Param>::empty());
    None
}

/// Drops every entry named `key`.
pub fn remove_param(ps: Vec<Param>, key: &String) -> (r: Vec<Param>)
    ensures
        r@ == without_key(ps@, key@),
{
    let ghost orig = ps@;
    let mut rest = ps;
    let mut out: Vec<Param> = Vec::new();
    let n = rest.len();
    let mut i: usize = 0;
    while i < n
        invariant
            n == orig.len(),
            i <= n,
            rest@ == orig.skip(i as int),
            out@ == without_key(orig.take(i as int), key@),
        decreases n - i,
    {
        assert(orig.take(i + 1).drop_last() =~= orig.take(i as int));
        assert(rest@[0] == orig[i as int]);
        let p = rest.remove(0);
        if p.key != *key {
            out.push(p);
        }
        i = i + 1;
        assert(rest@ =~= orig.skip(i as int));
    }
    assert(orig.take(n as int) =~= orig);
    out
}

/// Sets `key` to `value`, replacing any entry of that name.
pub fn set_param(ps: Vec<Param>, key: String, value: ParamValue) -> (r: Vec<Param>)
    ensures
        r@ == with_param(ps@, key, value),
{
    let mut out = remove_param(ps, &key);
    out.push(Param { key, value });
    out
}

} // verus!
