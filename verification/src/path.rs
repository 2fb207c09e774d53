//! Path names as system calls see them: making a path absolute against the
//! working directory, folding `.` and `..`, and splitting off the last
//! component.
use vstd::prelude::*;

verus! {

/// The byte `/`.
pub const SLASH: u8 = 47;

/// The byte `.`.
pub const DOT: u8 = 46;

/// The byte `@`, which starts a path with an explicit disk.
pub const AT: u8 = 64;

/// The prefix of an absolute path on the boot disk (`@0xE0`).
pub open spec fn boot_disk_prefix() -> Seq<u8> {
    seq![64u8, 48u8, 120u8, 69u8, 48u8]
}

/// `s` split at every `/`, as `str::split` does: n slashes give n + 1
/// pieces, some possibly empty.
pub open spec fn split_slash(s: Seq<u8>) -> Seq<Seq<u8>>
    decreases s.len(),
{
    if s.len() == 0 {
        seq![Seq::empty()]
    } else {
        let p = split_slash(s.drop_last());
        if s.last() == SLASH {
            p.push(Seq::empty())
        } else {
            p.update(p.len() - 1, p.last().push(s.last()))
        }
    }
}

proof fn lemma_split_slash_len(s: Seq<u8>)
    ensures
        split_slash(s).len() >= 1,
    decreases s.len(),
{
    if s.len() > 0 {
        lemma_split_slash_len(s.drop_last());
    }
}

/// One component applied to the components so far: empty and `.` do
/// nothing, `..` drops the last one unless only one is left, anything else
/// is appended.
pub open spec fn norm_step(acc: Seq<Seq<u8>>, part: Seq<u8>) -> Seq<Seq<u8>> {
    if part.len() == 0 || part =~= seq![DOT] {
        acc
    } else if part =~= seq![DOT, DOT] {
        if acc.len() > 1 {
            acc.drop_last()
        } else {
            acc
        }
    } else {
        acc.push(part)
    }
}

/// The components left after applying `parts` in order.
pub open spec fn normalize(parts: Seq<Seq<u8>>) -> Seq<Seq<u8>>
    decreases parts.len(),
{
    if parts.len() == 0 {
        Seq::empty()
    } else {
        norm_step(normalize(parts.drop_last()), parts.last())
    }
}

/// Components joined by `/`.
pub open spec fn join_slash(parts: Seq<Seq<u8>>) -> Seq<u8>
    decreases parts.len(),
{
    if parts.len() == 0 {
        Seq::empty()
    } else if parts.len() == 1 {
        parts[0]
    } else {
        join_slash(parts.drop_last()) + seq![SLASH] + parts.last()
    }
}

/// The path before folding: explicit-disk paths as given, rooted paths on
/// the boot disk, anything else under the working directory.
pub open spec fn full_path(cwd: Seq<u8>, path: Seq<u8>) -> Seq<u8> {
    if path.len() > 0 && path[0] == AT {
        path
    } else if path.len() > 0 && path[0] == SLASH {
        boot_disk_prefix() + path
    } else {
        cwd + path
    }
}

/// The resolved form of `path` seen from working directory `cwd`.
pub open spec fn resolved(cwd: Seq<u8>, path: Seq<u8>) -> Seq<u8> {
    join_slash(normalize(split_slash(full_path(cwd, path))))
}

/// The byte contents of a list of byte vectors.
pub open spec fn deep(v: Seq<Vec<u8>>) -> Seq<Seq<u8>> {
    v.map_values(|x: Vec<u8>| x@)
}

/// Makes `path` absolute (see `full_path`) and folds its components (see
/// `normalize`), joining what is left with `/` and no trailing slash.
pub fn resolve_path(cwd: &[u8], path: &[u8]) -> (r: Vec<u8>)
    requires
        cwd@.len() + path@.len() + 5 <= usize::MAX,
    ensures
        r@ == resolved(cwd@, path@),
{
    let mut full: Vec<u8> = Vec::new();
    if path.len() > 0 && path[0] == AT {
        append(&mut full, path);
    } else if path.len() > 0 && path[0] == SLASH {
        full.push(64u8);
        full.push(48u8);
        full.push(120u8);
        full.push(69u8);
        full.push(48u8);
        append(&mut full, path);
    } else {
        append(&mut full, cwd);
        append(&mut full, path);
    }
    assert(full@ =~= full_path(cwd@, path@));
    let parts = fold_components(&full);
    join_components(&parts)
}

/// Appends the bytes of `src` to `dst`.
fn append(dst: &mut Vec<u8>, src: &[u8])
    ensures
        final(dst)@ == old(dst)@ + src@,
{
    let mut i: usize = 0;
    while i < src.len()
        invariant
            i <= src@.len(),
            dst@ == old(dst)@ + src@.take(i as int),
        decreases src@.len() - i,
    {
        dst.push(src[i]);
        i = i + 1;
        assert(dst@ =~= old(dst)@ + src@.take(i as int));
    }
    assert(src@.take(i as int) =~= src@);
}

/// Applies one component to the list being built.
fn apply_component(parts: &mut Vec<Vec<u8>>, cur: Vec<u8>)
    ensures
        deep(final(parts)@) == norm_step(deep(old(parts)@), cur@),
{
    let ghost before = deep(parts@);
    let is_dot = cur.len() == 1 && cur[0] == DOT;
    let is_dotdot = cur.len() == 2 && cur[0] == DOT && cur[1] == DOT;
    assert(is_dot == (cur@ =~= seq![DOT]));
    assert(is_dotdot == (cur@ =~= seq![DOT, DOT]));
    if cur.len() == 0 || is_dot {
    } else if is_dotdot {
        if parts.len() > 1 {
            parts.pop();
            assert(deep(parts@) =~= before.drop_last());
        }
    } else {
        let ghost c = cur@;
        parts.push(cur);
        assert(deep(parts@) =~= before.push(c));
    }
}

/// The components of `full` after folding.
fn fold_components(full: &Vec<u8>) -> (parts: Vec<Vec<u8>>)
    ensures
        deep(parts@) == normalize(split_slash(full@)),
{
    let mut parts: Vec<Vec<u8>> = Vec::new();
    let mut cur: Vec<u8> = Vec::new();
    let mut i: usize = 0;
    proof {
        lemma_split_slash_len(full@.take(0));
        assert(full@.take(0) =~= Seq::<u8>::empty());
        assert(split_slash(Seq::<u8>::empty()).drop_last() =~= Seq::<Seq<u8>>::empty());
    }
    while i < full.len()
        invariant
            i <= full@.len(),
            split_slash(full@.take(i as int)).len() >= 1,
            deep(parts@) == normalize(split_slash(full@.take(i as int)).drop_last()),
            cur@ == split_slash(full@.take(i as int)).last(),
        decreases full@.len() - i,
    {
        let b = full[i];
        let ghost pre = full@.take(i as int);
        let ghost sp = split_slash(pre);
        assert(full@.take(i + 1).drop_last() =~= pre);
        assert(full@.take(i + 1).last() == b);
        if b == SLASH {
            let done = cur;
            cur = Vec::new();
            apply_component(&mut parts, done);
            assert(split_slash(full@.take(i + 1)) =~= sp.push(Seq::empty()));
            assert(sp.push(Seq::<u8>::empty()).drop_last() =~= sp);
            assert(sp =~= sp.drop_last().push(sp.last()));
        } else {
            cur.push(b);
            assert(split_slash(full@.take(i + 1)) =~= sp.update(sp.len() - 1, sp.last().push(b)));
            assert(sp.update(sp.len() - 1, sp.last().push(b)).drop_last() =~= sp.drop_last());
        }
        i = i + 1;
        proof {
            lemma_split_slash_len(full@.take(i as int));
        }
    }
    let ghost sp = split_slash(full@.take(i as int));
    assert(full@.take(i as int) =~= full@);
    apply_component(&mut parts, cur);
    assert(sp =~= sp.drop_last().push(sp.last()));
    parts
}

/// The components joined by `/`.
fn join_components(parts: &Vec<Vec<u8>>) -> (r: Vec<u8>)
    ensures
        r@ == join_slash(deep(parts@)),
{
    let mut out: Vec<u8> = Vec::new();
    let mut i: usize = 0;
    assert(deep(parts@).take(0) =~= Seq::<Seq<u8>>::empty());
    while i < parts.len()
        invariant
            i <= parts@.len(),
            out@ == join_slash(deep(parts@).take(i as int)),
        decreases parts@.len() - i,
    {
        let ghost d = deep(parts@).take(i + 1);
        assert(d.drop_last() =~= deep(parts@).take(i as int));
        if i > 0 {
            out.push(SLASH);
        } else {
            assert(out@ =~= Seq::<u8>::empty());
        }
        let p = &parts[i];
        let mut j: usize = 0;
        let ghost base = out@;
        while j < p.len()
            invariant
                j <= p@.len(),
                out@ == base + p@.take(j as int),
            decreases p@.len() - j,
        {
            out.push(p[j]);
            j = j + 1;
            assert(out@ =~= base + p@.take(j as int));
        }
        assert(p@.take(j as int) =~= p@);
        assert(d.last() == p@);
        i = i + 1;
        assert(out@ =~= join_slash(deep(parts@).take(i as int)));
    }
    assert(deep(parts@).take(i as int) =~= deep(parts@));
    out
}

/// The position of the last `/` in `s`.
pub open spec fn last_slash(s: Seq<u8>) -> Option<int> {
    if exists|i: int| 0 <= i < s.len() && s[i] == SLASH {
        Some(choose|i: int| 0 <= i < s.len() && s[i] == SLASH && forall|j: int| i < j < s.len() ==> s[j] != SLASH)
    } else {
        None
    }
}

/// Splits a resolved path at its last `/` into parent and name; a path
/// without one has an empty parent and is all name.
pub fn split_parent(path: &[u8]) -> (r: (Vec<u8>, Vec<u8>))
    ensures
        match last_slash(path@) {
            Some(i) => r.0@ == path@.take(i) && r.1@ == path@.skip(i + 1),
            None => r.0@ == Seq::<u8>::empty() && r.1@ == path@,
        },
{
    let mut k: usize = path.len();
    let mut found = false;
    while k > 0 && !found
        invariant
            k <= path@.len(),
            found ==> k < path@.len() && path@[k as int] == SLASH,
            forall|j: int| k < j < path@.len() ==> path@[j] != SLASH,
            !found ==> forall|j: int| k <= j < path@.len() ==> path@[j] != SLASH,
        decreases k + (if found { 0int } else { 1 }),
    {
        if path[k - 1] == SLASH {
            k = k - 1;
            found = true;
        } else {
            k = k - 1;
        }
    }
    let mut parent: Vec<u8> = Vec::new();
    let mut name: Vec<u8> = Vec::new();
    if found {
        let ghost c = choose|i: int| 0 <= i < path@.len() && path@[i] == SLASH && forall|j: int| i < j < path@.len() ==> path@[j] != SLASH;
        assert(0 <= k < path@.len() && path@[k as int] == SLASH);
        assert(c == k as int) by {
            if c < k {
                assert(path@[k as int] != SLASH);
            }
            if c > k {
                assert(path@[c] != SLASH);
            }
        }
        let (a, b) = path.split_at(k);
        append(&mut parent, a);
        let mut j: usize = k + 1;
        while j < path.len()
            invariant
                k < j <= path@.len(),
                name@ == path@.subrange(k + 1, j as int),
            decreases path@.len() - j,
        {
            name.push(path[j]);
            j = j + 1;
            assert(name@ =~= path@.subrange(k + 1, j as int));
        }
        assert(path@.skip(k + 1) =~= path@.subrange(k + 1, path@.len() as int));
        assert(parent@ =~= path@.take(k as int));
    } else {
        assert(!exists|i: int| 0 <= i < path@.len() && path@[i] == SLASH);
        append(&mut name, path);
        assert(name@ =~= path@);
    }
    (parent, name)
}

} // verus!
