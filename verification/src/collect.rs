//! What collection operations make of their elements and of what the callback
//! said about each.
use vstd::prelude::*;
use crate::exc::{type_error, value_error, Exc, VErr};
use crate::iter::elements;
use crate::keys::{check_key, keys_match, put_key, same_key, unhashable, unhashable_text, with_key};
use crate::names::{is_truthy, kind_name, kind_name_of, truthy};
use crate::seqop::SeqShape;
use crate::text::{join3, nat_text, render_usize};
use crate::value::{Heap, Value};

verus! {

/// Whether one of these counts as true.
pub open spec fn any_true(h: Heap, rs: Seq<Value>) -> bool {
    exists|i: int| 0 <= i < rs.len() && truthy(h, #[trigger] rs[i])
}

/// Whether one of these counts as true.
pub fn has_true(h: &Heap, rs: &Vec<Value>) -> (r: bool)
    ensures r == any_true(*h, rs@),
{
    let mut i: usize = 0;
    while i < rs.len()
        invariant i <= rs.len(), forall|k: int| 0 <= k < i ==> !truthy(*h, #[trigger] rs@[k]),
        decreases rs.len() - i,
    {
        if is_truthy(h, rs[i]) {
            assert(truthy(*h, rs@[i as int]));
            return true;
        }
        i += 1;
    }
    false
}

/// Whether all of these count as true.
pub open spec fn all_true(h: Heap, rs: Seq<Value>) -> bool {
    forall|i: int| 0 <= i < rs.len() ==> truthy(h, #[trigger] rs[i])
}

/// Whether all of these count as true.
pub fn has_only_true(h: &Heap, rs: &Vec<Value>) -> (r: bool)
    ensures r == all_true(*h, rs@),
{
    let mut i: usize = 0;
    while i < rs.len()
        invariant i <= rs.len(), forall|k: int| 0 <= k < i ==> truthy(*h, #[trigger] rs@[k]),
        decreases rs.len() - i,
    {
        if !is_truthy(h, rs[i]) {
            assert(!truthy(*h, rs@[i as int]));
            return false;
        }
        i += 1;
    }
    true
}

/// How many of these count as true.
pub open spec fn count_true(h: Heap, rs: Seq<Value>) -> nat
    decreases rs.len(),
{
    if rs.len() == 0 {
        0
    } else {
        count_true(h, rs.drop_last()) + (if truthy(h, rs.last()) { 1nat } else { 0nat })
    }
}

/// How many of these count as true.
pub fn number_true(h: &Heap, rs: &Vec<Value>) -> (r: usize)
    ensures r == count_true(*h, rs@),
{
    let mut n: usize = 0;
    let mut i: usize = 0;
    assert(rs@.take(0) =~= Seq::empty());
    while i < rs.len()
        invariant i <= rs.len(), n == count_true(*h, rs@.take(i as int)), n <= i,
        decreases rs.len() - i,
    {
        if is_truthy(h, rs[i]) {
            n += 1;
        }
        assert(rs@.take(i + 1).drop_last() =~= rs@.take(i as int));
        i += 1;
    }
    assert(rs@.take(i as int) =~= rs@);
    n
}

/// How many elements have a result.
pub open spec fn paired_len(items: Seq<Value>, rs: Seq<Value>) -> nat {
    if items.len() < rs.len() { items.len() } else { rs.len() }
}

/// The elements among the first `n` whose result is true, or is not.
pub open spec fn chosen(h: Heap, items: Seq<Value>, rs: Seq<Value>, want: bool, n: int) -> Seq<Value>
    decreases n,
{
    if n <= 0 {
        Seq::empty()
    } else if truthy(h, rs[n - 1]) == want {
        chosen(h, items, rs, want, n - 1).push(items[n - 1])
    } else {
        chosen(h, items, rs, want, n - 1)
    }
}

/// The elements whose result is true, or is not, in order.
pub fn choose_items(h: &Heap, items: &Vec<Value>, rs: &Vec<Value>, want: bool) -> (r: Vec<Value>)
    ensures r@ == chosen(*h, items@, rs@, want, paired_len(items@, rs@) as int),
{
    let n: usize = if items.len() < rs.len() { items.len() } else { rs.len() };
    let mut out: Vec<Value> = Vec::new();
    let mut i: usize = 0;
    while i < n
        invariant
            i <= n,
            n <= items.len(),
            n <= rs.len(),
            out@ == chosen(*h, items@, rs@, want, i as int),
        decreases n - i,
    {
        if is_truthy(h, rs[i]) == want {
            out.push(items[i]);
        }
        i += 1;
    }
    out
}

/// Both halves of a partition together are all the elements: none is lost and
/// none is doubled.
pub proof fn partition_is_complete(h: Heap, items: Seq<Value>, rs: Seq<Value>, n: int)
    requires 0 <= n <= paired_len(items, rs),
    ensures
        chosen(h, items, rs, true, n).len() + chosen(h, items, rs, false, n).len() == n,
        chosen(h, items, rs, true, n).to_multiset().add(chosen(h, items, rs, false, n).to_multiset()) == items.take(n).to_multiset(),
    decreases n,
{
    broadcast use vstd::seq_lib::group_to_multiset_ensures;

    if n > 0 {
        partition_is_complete(h, items, rs, n - 1);
        assert(items.take(n) =~= items.take(n - 1).push(items[n - 1]));
        let yes = chosen(h, items, rs, true, n - 1);
        let no = chosen(h, items, rs, false, n - 1);
        assert(yes.push(items[n - 1]).to_multiset().add(no.to_multiset()) =~= yes.to_multiset().add(no.to_multiset()).insert(items[n - 1]));
        assert(yes.to_multiset().add(no.push(items[n - 1]).to_multiset()) =~= yes.to_multiset().add(no.to_multiset()).insert(items[n - 1]));
    } else {
        assert(items.take(0) =~= Seq::empty());
        assert(chosen(h, items, rs, true, n).to_multiset().add(chosen(h, items, rs, false, n).to_multiset()) =~= items.take(n).to_multiset());
    }
}

/// The first place from `i` on with a true result.
pub open spec fn first_true(h: Heap, rs: Seq<Value>, n: int, i: int) -> Option<int>
    decreases n - i,
{
    if i < 0 || i >= n {
        None
    } else if truthy(h, rs[i]) {
        Some(i)
    } else {
        first_true(h, rs, n, i + 1)
    }
}

/// The element of the first true result, or null.
pub open spec fn found_item(h: Heap, items: Seq<Value>, rs: Seq<Value>) -> Value {
    match first_true(h, rs, paired_len(items, rs) as int, 0) {
        Some(i) => items[i],
        None => Value::Null,
    }
}

/// The element of the first true result, or null.
pub fn find_item(h: &Heap, items: &Vec<Value>, rs: &Vec<Value>) -> (r: Value)
    ensures r == found_item(*h, items@, rs@),
{
    let n: usize = if items.len() < rs.len() { items.len() } else { rs.len() };
    let mut i: usize = 0;
    while i < n
        invariant
            i <= n,
            n == paired_len(items@, rs@),
            first_true(*h, rs@, n as int, 0) == first_true(*h, rs@, n as int, i as int),
        decreases n - i,
    {
        if is_truthy(h, rs[i]) {
            return items[i];
        }
        i += 1;
    }
    Value::Null
}

/// How long the leading run of true results is, from place `i` on.
pub open spec fn run_end(h: Heap, rs: Seq<Value>, n: int, i: int) -> int
    decreases n - i,
{
    if i < 0 || i >= n {
        n
    } else if truthy(h, rs[i]) {
        run_end(h, rs, n, i + 1)
    } else {
        i
    }
}

/// Where the leading run of true results ends.
pub fn leading_run(h: &Heap, items: &Vec<Value>, rs: &Vec<Value>) -> (r: usize)
    ensures
        r == run_end(*h, rs@, paired_len(items@, rs@) as int, 0),
        r <= paired_len(items@, rs@),
{
    let n: usize = if items.len() < rs.len() { items.len() } else { rs.len() };
    let mut i: usize = 0;
    while i < n
        invariant
            i <= n,
            n == paired_len(items@, rs@),
            run_end(*h, rs@, n as int, 0) == run_end(*h, rs@, n as int, i as int),
        decreases n - i,
    {
        if !is_truthy(h, rs[i]) {
            return i;
        }
        i += 1;
    }
    n
}

/// A copy of the elements from `lo` to before `hi`.
pub fn copy_range(v: &Vec<Value>, lo: usize, hi: usize) -> (r: Vec<Value>)
    requires lo <= hi <= v.len(),
    ensures r@ == v@.subrange(lo as int, hi as int),
{
    let mut out: Vec<Value> = Vec::new();
    let mut i: usize = lo;
    while i < hi
        invariant lo <= i <= hi, hi <= v.len(), out@ == v@.subrange(lo as int, i as int),
        decreases hi - i,
    {
        out.push(v[i]);
        i += 1;
        assert(out@ =~= v@.subrange(lo as int, i as int));
    }
    out
}

/// A key and the elements under it.
pub ghost struct Group {
    pub key: Value,
    pub items: Seq<Value>,
}

/// The place of the group under `key` from `i` on.
pub open spec fn group_at(h: Heap, gs: Seq<Group>, key: Value, i: int) -> Option<int>
    decreases gs.len() - i,
{
    if i < 0 || i >= gs.len() {
        None
    } else if same_key(h, gs[i].key, key) {
        Some(i)
    } else {
        group_at(h, gs, key, i + 1)
    }
}

/// The groups of the first `n` elements: by key, in the order the keys came.
pub open spec fn grouped(h: Heap, items: Seq<Value>, keys: Seq<Value>, n: int) -> Seq<Group>
    decreases n,
{
    if n <= 0 {
        Seq::empty()
    } else {
        let gs = grouped(h, items, keys, n - 1);
        match group_at(h, gs, keys[n - 1], 0) {
            Some(i) => gs.update(i, Group { key: gs[i].key, items: gs[i].items.push(items[n - 1]) }),
            None => gs.push(Group { key: keys[n - 1], items: seq![items[n - 1]] }),
        }
    }
}

/// The first of the first `n` keys that cannot be one.
pub open spec fn bad_key(h: Heap, keys: Seq<Value>, n: int, i: int) -> Option<Value>
    decreases n - i,
{
    if i < 0 || i >= n {
        None
    } else {
        match unhashable(h, keys[i]) {
            Some(p) => Some(p),
            None => bad_key(h, keys, n, i + 1),
        }
    }
}

fn check_keys(h: &Heap, keys: &Vec<Value>, n: usize) -> (r: Result<(), VErr>)
    requires n <= keys.len(),
    ensures
        match bad_key(*h, keys@, n as int, 0) {
            Some(p) => r matches Err(e) && e@ == (Exc::TypeError, unhashable_text(*h, p)),
            None => r is Ok,
        },
{
    let mut i: usize = 0;
    while i < n
        invariant
            i <= n,
            n <= keys.len(),
            bad_key(*h, keys@, n as int, 0) == bad_key(*h, keys@, n as int, i as int),
        decreases n - i,
    {
        match check_key(h, keys[i]) {
            Err(e) => {
                return Err(e);
            }
            Ok(_) => {}
        }
        i += 1;
    }
    Ok(())
}

/// The groups as they stand in memory.
spec fn groups_view(gs: Seq<(Value, Vec<Value>)>) -> Seq<Group> {
    gs.map_values(|g: (Value, Vec<Value>)| Group { key: g.0, items: g.1@ })
}

/// `v` is a new dict of these groups, each a list of its own.
pub open spec fn is_group_dict(h: Heap, v: Value, gs: Seq<Group>) -> bool {
    v matches Value::Dict(d) && d < h.dicts@.len() && h.dict(d).len() == gs.len()
        && forall|k: int| 0 <= k < gs.len() ==> group_entry(h, #[trigger] h.dict(d)[k], gs[k])
}

/// A dict entry for a group.
pub open spec fn group_entry(h: Heap, e: (Value, Value), g: Group) -> bool {
    e.0 == g.key && (e.1 matches Value::List(l) && l < h.lists@.len() && h.list(l) == g.items)
}

/// Only lists, tuples and dicts were added between `a` and `b`.
pub open spec fn collections_grew(a: Heap, b: Heap) -> bool {
    &&& b == (Heap { lists: b.lists, tuples: b.tuples, dicts: b.dicts, ..a })
    &&& a.lists@.is_prefix_of(b.lists@)
    &&& a.tuples@.is_prefix_of(b.tuples@)
    &&& a.dicts@.is_prefix_of(b.dicts@)
}

/// Bucket the elements by key into a dict of lists.
pub fn group_items(h: &mut Heap, items: &Vec<Value>, keys: &Vec<Value>) -> (r: Result<Value, VErr>)
    ensures
        collections_grew(*old(h), *final(h)),
        match bad_key(*old(h), keys@, paired_len(items@, keys@) as int, 0) {
            Some(p) => r matches Err(e) && e@ == (Exc::TypeError, unhashable_text(*old(h), p)),
            None => r matches Ok(v) && is_group_dict(*final(h), v, grouped(*old(h), items@, keys@, paired_len(items@, keys@) as int)),
        },
{
    let n: usize = if items.len() < keys.len() { items.len() } else { keys.len() };
    match check_keys(h, keys, n) {
        Err(e) => {
            return Err(e);
        }
        Ok(_) => {}
    }
    let mut groups: Vec<(Value, Vec<Value>)> = Vec::new();
    let mut i: usize = 0;
    assert(groups_view(groups@) =~= Seq::empty());
    while i < n
        invariant
            i <= n,
            n <= items.len(),
            n <= keys.len(),
            *h == *old(h),
            groups_view(groups@) == grouped(*h, items@, keys@, i as int),
        decreases n - i,
    {
        let ghost gs = groups_view(groups@);
        let m = groups.len();
        let mut k: usize = 0;
        while k < m && !keys_match(h, groups[k].0, keys[i])
            invariant
                k <= m,
                m == groups.len(),
                i < n,
                n <= keys.len(),
                gs == groups_view(groups@),
                gs.len() == m,
                group_at(*h, gs, keys@[i as int], 0) == group_at(*h, gs, keys@[i as int], k as int),
            decreases m - k,
        {
            assert(gs[k as int].key == groups@[k as int].0);
            k += 1;
        }
        if k < m {
            assert(gs[k as int].key == groups@[k as int].0);
            groups[k].1.push(items[i]);
            assert(groups_view(groups@) =~= gs.update(k as int, Group {
                key: gs[k as int].key,
                items: gs[k as int].items.push(items@[i as int]),
            }));
        } else {
            let mut one: Vec<Value> = Vec::new();
            one.push(items[i]);
            assert(one@ =~= seq![items@[i as int]]);
            groups.push((keys[i], one));
            assert(groups_view(groups@) =~= gs.push(Group { key: keys@[i as int], items: seq![items@[i as int]] }));
        }
        i += 1;
    }
    let ghost all = groups_view(groups@);
    let mut entries: Vec<(Value, Value)> = Vec::new();
    let total = groups.len();
    while groups.len() > 0
        invariant
            entries.len() + groups.len() == total,
            total == all.len(),
            *h == (Heap { lists: h.lists, ..*old(h) }),
            old(h).lists@.is_prefix_of(h.lists@),
            groups_view(groups@) == all.skip(entries.len() as int),
            forall|k: int| 0 <= k < entries.len() ==> group_entry(*h, #[trigger] entries@[k], all[k]),
        decreases groups.len(),
    {
        let ghost h0 = *h;
        let ghost e0 = entries@;
        let ghost queue = groups@;
        let g = groups.remove(0);
        proof {
            assert(groups_view(queue)[0] == all[entries.len() as int]);
            let rest = groups_view(groups@);
            let had = groups_view(queue);
            assert forall|k: int| 0 <= k < rest.len() implies rest[k] == #[trigger] all.skip(entries.len() + 1)[k] by {
                assert(groups@[k] == queue[k + 1]);
                assert(rest[k] == had[k + 1]);
                assert(had[k + 1] == all.skip(entries.len() as int)[k + 1]);
            }
            assert(rest =~= all.skip(entries.len() + 1));
        }
        let l = h.alloc_list(g.1);
        entries.push((g.0, l));
        assert forall|k: int| 0 <= k < entries.len() implies group_entry(*h, #[trigger] entries@[k], all[k]) by {
            if k < e0.len() {
                assert(group_entry(h0, e0[k], all[k]));
            }
        }
    }
    let ghost h0 = *h;
    let ghost e0 = entries@;
    let v = h.alloc_dict(entries);
    proof {
        let d = h0.dicts.len();
        assert(h.dict(d) == e0);
        assert forall|k: int| 0 <= k < all.len() implies group_entry(*h, #[trigger] h.dict(d)[k], all[k]) by {
            assert(group_entry(h0, e0[k], all[k]));
        }
    }
    Ok(v)
}

/// Whether `key` is among `seen`, from place `i` on.
pub open spec fn seen_key(h: Heap, seen: Seq<Value>, key: Value, i: int) -> bool
    decreases seen.len() - i,
{
    0 <= i < seen.len() && (same_key(h, seen[i], key) || seen_key(h, seen, key, i + 1))
}

/// The keys among the first `n`, each once.
pub open spec fn distinct_keys(h: Heap, keys: Seq<Value>, n: int) -> Seq<Value>
    decreases n,
{
    if n <= 0 {
        Seq::empty()
    } else {
        let s = distinct_keys(h, keys, n - 1);
        if seen_key(h, s, keys[n - 1], 0) { s } else { s.push(keys[n - 1]) }
    }
}

/// The elements among the first `n` whose key did not come before.
pub open spec fn distinct_items(h: Heap, items: Seq<Value>, keys: Seq<Value>, n: int) -> Seq<Value>
    decreases n,
{
    if n <= 0 {
        Seq::empty()
    } else {
        let s = distinct_items(h, items, keys, n - 1);
        if seen_key(h, distinct_keys(h, keys, n - 1), keys[n - 1], 0) { s } else { s.push(items[n - 1]) }
    }
}

/// The elements whose key did not come before.
pub fn unique_items(h: &Heap, items: &Vec<Value>, keys: &Vec<Value>) -> (r: Result<Vec<Value>, VErr>)
    ensures
        match bad_key(*h, keys@, paired_len(items@, keys@) as int, 0) {
            Some(p) => r matches Err(e) && e@ == (Exc::TypeError, unhashable_text(*h, p)),
            None => r matches Ok(v) && v@ == distinct_items(*h, items@, keys@, paired_len(items@, keys@) as int),
        },
{
    let n: usize = if items.len() < keys.len() { items.len() } else { keys.len() };
    match check_keys(h, keys, n) {
        Err(e) => {
            return Err(e);
        }
        Ok(_) => {}
    }
    let mut seen: Vec<Value> = Vec::new();
    let mut out: Vec<Value> = Vec::new();
    let mut i: usize = 0;
    while i < n
        invariant
            i <= n,
            n <= items.len(),
            n <= keys.len(),
            seen@ == distinct_keys(*h, keys@, i as int),
            out@ == distinct_items(*h, items@, keys@, i as int),
        decreases n - i,
    {
        let m = seen.len();
        let mut k: usize = 0;
        while k < m && !keys_match(h, seen[k], keys[i])
            invariant
                k <= m,
                m == seen.len(),
                i < n,
                n <= keys.len(),
                seen_key(*h, seen@, keys@[i as int], 0) == seen_key(*h, seen@, keys@[i as int], k as int),
            decreases m - k,
        {
            k += 1;
        }
        if k >= m {
            seen.push(keys[i]);
            out.push(items[i]);
        }
        i += 1;
    }
    Ok(out)
}

/// The pair an entry of a rebuilt dict is.
pub open spec fn entry_pair(h: Heap, e: Value) -> Result<(Value, Value), (Exc, Seq<char>)> {
    match e {
        Value::Tuple(t) => if h.tuple(t).len() == 2 {
            Ok((h.tuple(t)[0], h.tuple(t)[1]))
        } else {
            Err((Exc::ValueError, "rebuilding a dict needs 2-element pairs, got "@ + nat_text(h.tuple(t).len()) + " elements"@))
        },
        Value::List(l) => if h.list(l).len() == 2 {
            Ok((h.list(l)[0], h.list(l)[1]))
        } else {
            Err((Exc::ValueError, "rebuilding a dict needs 2-element pairs, got "@ + nat_text(h.list(l).len()) + " elements"@))
        },
        _ => Err((Exc::TypeError, "rebuilding a dict needs (key, value) pairs, not '"@ + kind_name(h, e) + "'"@)),
    }
}

fn read_pair(h: &Heap, e: Value) -> (r: Result<(Value, Value), VErr>)
    ensures
        match entry_pair(*h, e) {
            Ok(p) => r == Ok::<(Value, Value), VErr>(p),
            Err(x) => r matches Err(y) && y@ == x,
        },
{
    match e {
        Value::Tuple(t) => {
            let n = h.tuple_len(t);
            if n == 2 {
                return Ok((h.tuple_at(t, 0), h.tuple_at(t, 1)));
            }
            let d = render_usize(n);
            Err(value_error(join3("rebuilding a dict needs 2-element pairs, got ", d.as_str(), " elements")))
        }
        Value::List(l) => {
            let n = h.list_len(l);
            if n == 2 {
                return Ok((h.list_at(l, 0), h.list_at(l, 1)));
            }
            let d = render_usize(n);
            Err(value_error(join3("rebuilding a dict needs 2-element pairs, got ", d.as_str(), " elements")))
        }
        _ => Err(type_error(join3("rebuilding a dict needs (key, value) pairs, not '", kind_name_of(h, e), "'"))),
    }
}

/// The entries that the first `n` pairs make, a later one over an earlier one
/// with its key; or what is wrong with the first pair that is none.
pub open spec fn pairs_dict(h: Heap, items: Seq<Value>, n: int) -> Result<Seq<(Value, Value)>, (Exc, Seq<char>)>
    decreases n,
{
    if n <= 0 {
        Ok(Seq::empty())
    } else {
        match pairs_dict(h, items, n - 1) {
            Err(e) => Err(e),
            Ok(entries) => match entry_pair(h, items[n - 1]) {
                Err(e) => Err(e),
                Ok((k, v)) => match unhashable(h, k) {
                    Some(p) => Err((Exc::TypeError, unhashable_text(h, p))),
                    None => Ok(with_key(h, entries, k, v)),
                },
            },
        }
    }
}

proof fn lemma_pairs_err(h: Heap, items: Seq<Value>, i: int, n: int)
    requires 0 <= i <= n, pairs_dict(h, items, i) is Err,
    ensures pairs_dict(h, items, n) == pairs_dict(h, items, i),
    decreases n - i,
{
    if i < n {
        lemma_pairs_err(h, items, i, n - 1);
    }
}

fn dict_from_pairs(h: &Heap, items: &Vec<Value>) -> (r: Result<Vec<(Value, Value)>, VErr>)
    ensures
        match pairs_dict(*h, items@, items@.len() as int) {
            Ok(es) => r matches Ok(v) && v@ == es,
            Err(x) => r matches Err(y) && y@ == x,
        },
{
    let mut entries: Vec<(Value, Value)> = Vec::new();
    let mut i: usize = 0;
    while i < items.len()
        invariant
            i <= items.len(),
            pairs_dict(*h, items@, i as int) == Ok::<Seq<(Value, Value)>, (Exc, Seq<char>)>(entries@),
        decreases items.len() - i,
    {
        match read_pair(h, items[i]) {
            Err(e) => {
                proof { lemma_pairs_err(*h, items@, i + 1, items@.len() as int); }
                return Err(e);
            }
            Ok((k, v)) => {
                match check_key(h, k) {
                    Err(e) => {
                        proof { lemma_pairs_err(*h, items@, i + 1, items@.len() as int); }
                        return Err(e);
                    }
                    Ok(_) => {}
                }
                put_key(h, &mut entries, k, v);
            }
        }
        i += 1;
    }
    Ok(entries)
}

/// What turning elements back into a collection comes to: a new one of this
/// shape.
pub open spec fn rebuild_result(a: Heap, b: Heap, shape: SeqShape, items: Seq<Value>, r: Result<Value, VErr>) -> bool {
    match shape {
        SeqShape::List => r == Ok::<Value, VErr>(Value::List(a.lists.len())) && b.list(a.lists.len()) == items
            && b.lists@.len() == a.lists@.len() + 1,
        SeqShape::Tuple => r == Ok::<Value, VErr>(Value::Tuple(a.tuples.len())) && b.tuple(a.tuples.len()) == items
            && b.tuples@.len() == a.tuples@.len() + 1,
        SeqShape::Dict => match pairs_dict(a, items, items.len() as int) {
            Ok(es) => r == Ok::<Value, VErr>(Value::Dict(a.dicts.len())) && b.dict(a.dicts.len()) == es
                && b.dicts@.len() == a.dicts@.len() + 1,
            Err(x) => r matches Err(y) && y@ == x,
        },
    }
}

/// Turn elements back into a collection.
pub fn rebuild_shape(h: &mut Heap, shape: SeqShape, items: Vec<Value>) -> (r: Result<Value, VErr>)
    ensures
        rebuild_result(*old(h), *final(h), shape, items@, r),
        collections_grew(*old(h), *final(h)),
{
    match shape {
        SeqShape::List => Ok(h.alloc_list(items)),
        SeqShape::Tuple => Ok(h.alloc_tuple(items)),
        SeqShape::Dict => match dict_from_pairs(h, &items) {
            Ok(entries) => Ok(h.alloc_dict(entries)),
            Err(e) => Err(e),
        },
    }
}

} // verus!
