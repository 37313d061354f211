//! The directory a file lies in.
use vstd::prelude::*;
use vstd::string::*;
use crate::text::{chars_of, join2, push_char};

verus! {

/// How much of a path stands before its parts: the slash of an absolute one, or
/// the dot of one that says that it starts here.
pub open spec fn head_len(p: Seq<char>) -> nat {
    if p.len() > 0 && (p[0] == '/' || (p[0] == '.' && (p.len() == 1 || p[1] == '/'))) { 1 } else { 0 }
}

/// Where the last part of a path starts, none of it before `h`.
pub open spec fn part_start(p: Seq<char>, h: nat) -> int
    decreases p.len(),
{
    if p.len() <= h {
        h as int
    } else if p.last() == '/' {
        p.len() as int
    } else {
        part_start(p.drop_last(), h)
    }
}

/// What stands before the last part, without the slash between them.
pub open spec fn before_last(p: Seq<char>, h: nat) -> Seq<char> {
    let s = part_start(p, h);
    p.take(if s > h { s - 1 } else { h as int })
}

/// Whether a part says nothing: between two slashes, or a dot.
pub open spec fn says_nothing(part: Seq<char>) -> bool {
    part.len() == 0 || part =~= seq!['.']
}

/// A path without the parts at its end that say nothing.
pub open spec fn settled(p: Seq<char>, h: nat) -> Seq<char>
    decreases p.len(),
    via settled_ends
{
    if p.len() <= h {
        p
    } else if says_nothing(p.skip(part_start(p, h))) {
        settled(before_last(p, h), h)
    } else {
        p
    }
}

proof fn lemma_part_start(p: Seq<char>, h: nat)
    requires h <= p.len(),
    ensures
        h <= part_start(p, h) <= p.len(),
        part_start(p, h) > h ==> p[part_start(p, h) - 1] == '/',
        forall|k: int| part_start(p, h) <= k < p.len() ==> p[k] != '/',
    decreases p.len(),
{
    if p.len() > h && p.last() != '/' {
        lemma_part_start(p.drop_last(), h);
        assert forall|k: int| part_start(p, h) <= k < p.len() implies p[k] != '/' by {
            if k < p.len() - 1 {
                assert(p.drop_last()[k] == p[k]);
            }
        }
    }
}

#[via_fn]
proof fn settled_ends(p: Seq<char>, h: nat) {
    if h <= p.len() {
        lemma_part_start(p, h);
    }
}

/// The directory a path lies in: the path without its last part. Parts that say
/// nothing do not count. A root and an empty path lie in none.
pub open spec fn parent(p: Seq<char>) -> Option<Seq<char>> {
    let h = head_len(p);
    let t = settled(p, h);
    if t.len() > h {
        Some(settled(before_last(t, h), h))
    } else if h == 1 && p[0] == '.' {
        Some(Seq::empty())
    } else {
        None
    }
}

fn find_part(cs: &Vec<char>, n: usize, h: usize) -> (r: usize)
    requires h <= n <= cs.len(),
    ensures r == part_start(cs@.take(n as int), h as nat), h <= r <= n,
{
    let mut k = n;
    while k > h && cs[k - 1] != '/'
        invariant
            h <= k <= n,
            n <= cs.len(),
            part_start(cs@.take(n as int), h as nat) == part_start(cs@.take(k as int), h as nat),
        decreases k,
    {
        assert(cs@.take(k as int).drop_last() =~= cs@.take(k - 1));
        assert(cs@.take(k as int).last() == cs@[k - 1]);
        k -= 1;
    }
    if k > h {
        assert(cs@.take(k as int).last() == cs@[k - 1]);
    }
    k
}

fn settle(cs: &Vec<char>, from: usize, h: usize) -> (n: usize)
    requires h <= from <= cs.len(),
    ensures h <= n <= from, cs@.take(n as int) == settled(cs@.take(from as int), h as nat),
{
    let mut n = from;
    while n > h
        invariant
            h <= n <= from,
            from <= cs.len(),
            settled(cs@.take(from as int), h as nat) == settled(cs@.take(n as int), h as nat),
        decreases n,
    {
        let s = find_part(cs, n, h);
        let ghost t = cs@.take(n as int);
        let ghost part = t.skip(s as int);
        let nothing: bool = s == n || (s + 1 == n && cs[s] == '.');
        assert(says_nothing(part) == nothing) by {
            if part.len() == 1 {
                assert(part[0] == cs@[s as int]);
                if cs@[s as int] == '.' {
                    assert(part =~= seq!['.']);
                }
            }
        }
        if !nothing {
            return n;
        }
        let m = if s > h { s - 1 } else { h };
        assert(before_last(t, h as nat) =~= cs@.take(m as int));
        n = m;
    }
    n
}

/// The directory a path lies in.
pub fn parent_of(path: &str) -> (r: Option<String>)
    ensures
        match parent(path@) {
            Some(t) => r matches Some(s) && s@ == t,
            None => r is None,
        },
{
    let cs = chars_of(path);
    let n = cs.len();
    let h: usize = if n > 0 && (cs[0] == '/' || (cs[0] == '.' && (n == 1 || cs[1] == '/'))) { 1 } else { 0 };
    assert(cs@.take(n as int) =~= path@);
    let t = settle(&cs, n, h);
    if t > h {
        let s = find_part(&cs, t, h);
        let m = if s > h { s - 1 } else { h };
        assert(before_last(cs@.take(t as int), h as nat) =~= cs@.take(m as int));
        let e = settle(&cs, m, h);
        let r = path.substring_char(0, e).to_owned();
        assert(r@ =~= cs@.take(e as int));
        Some(r)
    } else if h == 1 && cs[0] == '.' {
        let r = path.substring_char(0, 0).to_owned();
        assert(r@ =~= Seq::empty());
        Some(r)
    } else {
        None
    }
}

/// The path `p` with `part` below it. An absolute part stands for itself.
pub open spec fn below(p: Seq<char>, part: Seq<char>) -> Seq<char> {
    if part.len() > 0 && part[0] == '/' {
        part
    } else if p.len() > 0 && p.last() != '/' {
        p.push('/') + part
    } else {
        p + part
    }
}

/// Where the last part of a dotted name starts.
pub open spec fn name_start(name: Seq<char>) -> int
    decreases name.len(),
{
    if name.len() == 0 {
        0
    } else if name.last() == '.' {
        name.len() as int
    } else {
        name_start(name.drop_last())
    }
}

proof fn lemma_name_start(name: Seq<char>)
    ensures 0 <= name_start(name) <= name.len(),
    decreases name.len(),
{
    if name.len() > 0 {
        lemma_name_start(name.drop_last());
    }
}

/// The path `root` with the parts of a dotted name below it, one after the
/// other.
pub open spec fn all_below(root: Seq<char>, name: Seq<char>) -> Seq<char>
    decreases name.len(),
    via all_below_ends
{
    let s = name_start(name);
    if s > 0 { below(all_below(root, name.take(s - 1)), name.skip(s)) } else { below(root, name) }
}

#[via_fn]
proof fn all_below_ends(root: Seq<char>, name: Seq<char>) {
    lemma_name_start(name);
}

/// Where the first `n` characters of a file's name end without their extension.
/// A dot at the start begins none.
pub open spec fn stem_end(part: Seq<char>, n: int) -> int
    decreases n,
{
    if n <= 1 {
        part.len() as int
    } else if part[n - 1] == '.' {
        n - 1
    } else {
        stem_end(part, n - 1)
    }
}

/// A path with `.oro` for its extension. One that names no file stays as it is.
pub open spec fn as_source(p: Seq<char>) -> Seq<char> {
    let h = head_len(p);
    let t = settled(p, h);
    let s = part_start(t, h);
    let part = t.skip(s);
    if t.len() <= h || part =~= seq!['.', '.'] {
        p
    } else {
        t.take(s + stem_end(part, part.len() as int)) + ".oro"@
    }
}

/// The file of the module `name` below the directory `root`.
pub open spec fn module_file(root: Seq<char>, name: Seq<char>) -> Seq<char> {
    as_source(all_below(root, name))
}

fn put_below(p: &mut String, cs: &Vec<char>, from: usize, to: usize)
    requires from <= to <= cs.len(),
    ensures final(p)@ == below(old(p)@, cs@.subrange(from as int, to as int)),
{
    let ghost part = cs@.subrange(from as int, to as int);
    if from < to && cs[from] == '/' {
        *p = "".to_owned();
        proof { reveal_strlit(""); }
        assert(p@ =~= Seq::empty());
    } else {
        let n = p.as_str().unicode_len();
        if n > 0 && p.as_str().get_char(n - 1) != '/' {
            push_char(p, '/');
        }
    }
    let ghost base = p@;
    let mut k = from;
    assert(p@ =~= base + cs@.subrange(from as int, from as int));
    while k < to
        invariant
            from <= k <= to,
            to <= cs.len(),
            p@ == base + cs@.subrange(from as int, k as int),
        decreases to - k,
    {
        push_char(p, cs[k]);
        assert(cs@.subrange(from as int, k + 1) =~= cs@.subrange(from as int, k as int).push(cs@[k as int]));
        assert(p@ =~= base + cs@.subrange(from as int, k + 1));
        k += 1;
    }
    assert(base + part =~= below(old(p)@, part));
}

pub proof fn lemma_all_below(root: Seq<char>, name: Seq<char>, from: int)
    requires
        0 <= from <= name.len(),
        from > 0 ==> name[from - 1] == '.',
        forall|k: int| from <= k < name.len() ==> name[k] != '.',
    ensures
        all_below(root, name) == (if from > 0 {
            below(all_below(root, name.take(from - 1)), name.skip(from))
        } else {
            below(root, name)
        }),
{
    lemma_name_start_is(name, from);
}

proof fn lemma_name_start_is(name: Seq<char>, from: int)
    requires
        0 <= from <= name.len(),
        from > 0 ==> name[from - 1] == '.',
        forall|k: int| from <= k < name.len() ==> name[k] != '.',
    ensures name_start(name) == from,
    decreases name.len(),
{
    if name.len() > from {
        lemma_name_start_is(name.drop_last(), from);
    }
}

fn put_all_below(root: &str, cs: &Vec<char>) -> (r: String)
    ensures r@ == all_below(root@, cs@),
{
    let n = cs.len();
    let mut r = root.to_owned();
    let mut from: usize = 0;
    let mut k: usize = 0;
    while k < n
        invariant
            n == cs.len(),
            from <= k <= n,
            from > 0 ==> cs@[from - 1] == '.',
            forall|j: int| from <= j < k ==> cs@[j] != '.',
            r@ == (if from > 0 { all_below(root@, cs@.take(from - 1)) } else { root@ }),
        decreases n - k,
    {
        if cs[k] == '.' {
            let ghost name = cs@.take(k as int);
            put_below(&mut r, cs, from, k);
            proof {
                lemma_all_below(root@, name, from as int);
                assert(name.skip(from as int) =~= cs@.subrange(from as int, k as int));
                if from > 0 {
                    assert(name.take(from - 1) =~= cs@.take(from - 1));
                } else {
                    assert(name =~= cs@.subrange(0, k as int));
                }
            }
            from = k + 1;
            assert(cs@.take(from - 1) =~= name);
        }
        k += 1;
    }
    put_below(&mut r, cs, from, n);
    proof {
        lemma_all_below(root@, cs@, from as int);
        assert(cs@.skip(from as int) =~= cs@.subrange(from as int, n as int));
        if from == 0 {
            assert(cs@ =~= cs@.subrange(0, n as int));
        }
    }
    r
}

/// The file of the module `name` below the directory `root`.
pub fn render_module_file(root: &str, name: &str) -> (r: String)
    ensures r@ == module_file(root@, name@),
{
    let p = put_all_below(root, &chars_of(name));
    let cs = chars_of(p.as_str());
    let n = cs.len();
    let h: usize = if n > 0 && (cs[0] == '/' || (cs[0] == '.' && (n == 1 || cs[1] == '/'))) { 1 } else { 0 };
    assert(cs@.take(n as int) =~= p@);
    let t = settle(&cs, n, h);
    if t <= h {
        return p;
    }
    let s = find_part(&cs, t, h);
    let ghost part = cs@.take(t as int).skip(s as int);
    assert(part.len() == t - s);
    assert(forall|j: int| 0 <= j < part.len() ==> part[j] == cs@[s + j]);
    if t - s == 2 && cs[s] == '.' && cs[s + 1] == '.' {
        assert(part =~= seq!['.', '.']);
        return p;
    }
    let mut k: usize = t - s;
    while k > 1 && cs[s + k - 1] != '.'
        invariant
            s <= t <= cs.len(),
            k <= t - s,
            part.len() == t - s,
            forall|j: int| 0 <= j < part.len() ==> part[j] == cs@[s + j],
            stem_end(part, part.len() as int) == stem_end(part, k as int),
        decreases k,
    {
        k -= 1;
    }
    let e: usize = if k > 1 { s + (k - 1) } else { t };
    let stem = p.as_str().substring_char(0, e).to_owned();
    assert(stem@ =~= cs@.take(t as int).take(e as int));
    join2(stem.as_str(), ".oro")
}

proof fn lemma_part_start_is(p: Seq<char>, h: nat, from: int)
    requires
        h <= from < p.len(),
        from > h ==> p[from - 1] == '/',
        forall|k: int| from <= k < p.len() ==> p[k] != '/',
    ensures part_start(p, h) == from,
    decreases p.len(),
{
    reveal_with_fuel(part_start, 2);
    if p.len() > from + 1 {
        lemma_part_start_is(p.drop_last(), h, from);
    } else if from > h {
        assert(p.drop_last().last() == '/');
    }
}

proof fn lemma_no_extension(part: Seq<char>, n: int)
    requires
        n <= part.len(),
        forall|k: int| 0 <= k < part.len() ==> part[k] != '.',
    ensures stem_end(part, n) == part.len(),
    decreases n,
{
    if n > 1 {
        lemma_no_extension(part, n - 1);
    }
}

/// The file of the module `a.b.c` is `a/b/c.oro` below the root: its parts one
/// below the other, and then the extension.
pub proof fn modules_lie_below_the_root(root: Seq<char>, name: Seq<char>)
    requires
        name_start(name) < name.len(),
        forall|k: int| 0 <= k < name.len() ==> name[k] != '/',
    ensures module_file(root, name) == all_below(root, name) + ".oro"@,
{
    lemma_name_start(name);
    lemma_last_is_plain(name);
    let part = name.skip(name_start(name));
    let base = if name_start(name) > 0 { all_below(root, name.take(name_start(name) - 1)) } else { root };
    let p = all_below(root, name);
    assert(part =~= name || name_start(name) > 0);
    assert(p =~= below(base, part));
    let from = p.len() - part.len();
    let h = head_len(p);
    assert(p.skip(from) =~= part);
    assert forall|k: int| from <= k < p.len() implies p[k] != '/' && p[k] != '.' by {
        assert(p[k] == part[k - from]);
    }
    if from == 0 {
        assert(p[0] == part[0]);
    }
    lemma_part_start_is(p, h, from);
    assert(!says_nothing(part));
    assert(settled(p, h) == p);
    lemma_no_extension(part, part.len() as int);
    assert(!(part =~= seq!['.', '.'])) by {
        assert(part[0] != '.');
    }
    assert(p.take(p.len() as int) =~= p);
}

proof fn lemma_last_is_plain(name: Seq<char>)
    ensures forall|k: int| name_start(name) <= k < name.len() ==> name[k] != '.',
    decreases name.len(),
{
    lemma_name_start(name);
    if name.len() > 0 && name.last() != '.' {
        lemma_last_is_plain(name.drop_last());
        assert forall|k: int| name_start(name) <= k < name.len() implies name[k] != '.' by {
            if k < name.len() - 1 {
                assert(name.drop_last()[k] == name[k]);
            }
        }
    }
}

} // verus!
