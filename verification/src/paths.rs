//! Entry paths as raw bytes: canonicalisation and splitting into
//! components.
//!
//! Archive entry paths are `/`-separated byte strings such as
//! `./a/b/c.txt`.  Placement in the tree works on their components, with
//! empty and `.` components dropped, as a path walk on the host would
//! drop them.

use vstd::prelude::*;

verus! {

/// Byte-wise equality of two byte strings.
pub fn bytes_eq(a: &[u8], b: &[u8]) -> (r: bool)
    ensures
        r <==> a@ == b@,
{
    if a.len() != b.len() {
        assert(a@ != b@);
        return false;
    }
    let n: usize = a.len();
    let mut i: usize = 0;
    while i < n
        invariant
            n == a@.len() == b@.len(),
            i <= n,
            forall|k: int| 0 <= k < i ==> a@[k] == b@[k],
        decreases n - i,
    {
        if a[i] != b[i] {
            return false;
        }
        i = i + 1;
    }
    assert(a@ =~= b@);
    true
}

/// `s` with every leading byte equal to `c` removed.
pub open spec fn spec_trim_leading(s: Seq<u8>, c: u8) -> Seq<u8>
    decreases s.len(),
{
    if s.len() > 0 && s[0] == c {
        spec_trim_leading(s.skip(1), c)
    } else {
        s
    }
}

/// What `canonicalize_entry_path` returns: the path with its leading
/// `.` bytes removed, and next its leading `/` bytes removed.
pub open spec fn spec_canonicalize(s: Seq<u8>) -> Seq<u8> {
    spec_trim_leading(spec_trim_leading(s, 46), 47)
}

proof fn lemma_trim_leading_skip(s: Seq<u8>, c: u8, i: int)
    requires
        0 <= i <= s.len(),
        forall|k: int| 0 <= k < i ==> s[k] == c,
    ensures
        spec_trim_leading(s, c) == spec_trim_leading(s.skip(i), c),
    decreases i,
{
    if i > 0 {
        assert(s.len() > 0 && s[0] == c);
        assert(s.skip(1).skip(i - 1) =~= s.skip(i));
        lemma_trim_leading_skip(s.skip(1), c, i - 1);
    } else {
        assert(s.skip(0) =~= s);
    }
}

/// Strip the `./`-style prefix an archive writer may have put on an
/// entry path: all leading `.` bytes followed by all leading `/` bytes.
pub fn canonicalize_entry_path(path: &[u8]) -> (r: Vec<u8>)
    ensures
        r@ == spec_canonicalize(path@),
{
    let n: usize = path.len();
    let mut i: usize = 0;
    while i < n && path[i] == 46
        invariant
            n == path@.len(),
            i <= n,
            forall|k: int| 0 <= k < i ==> path@[k] == 46u8,
        decreases n - i,
    {
        i = i + 1;
    }
    proof {
        lemma_trim_leading_skip(path@, 46, i as int);
        if i < n {
            assert(path@.skip(i as int)[0] != 46u8);
        }
        assert(spec_trim_leading(path@, 46) == path@.skip(i as int));
    }
    let mut j: usize = i;
    while j < n && path[j] == 47
        invariant
            n == path@.len(),
            i <= j <= n,
            forall|k: int| i <= k < j ==> path@[k] == 47u8,
        decreases n - j,
    {
        j = j + 1;
    }
    proof {
        let t = path@.skip(i as int);
        assert(t.skip(j - i) =~= path@.skip(j as int));
        lemma_trim_leading_skip(t, 47, j - i);
        if j < n {
            assert(t.skip(j - i)[0] != 47u8);
        }
        assert(spec_canonicalize(path@) == path@.skip(j as int));
    }
    let mut out: Vec<u8> = Vec::new();
    let mut k: usize = j;
    while k < n
        invariant
            n == path@.len(),
            j <= k <= n,
            out@ =~= path@.subrange(j as int, k as int),
        decreases n - k,
    {
        let b = path[k];
        out.push(b);
        k = k + 1;
    }
    proof {
        assert(path@.subrange(j as int, n as int) =~= path@.skip(j as int));
    }
    out
}

/// A path component is kept when it is neither empty nor a lone `.`.
pub open spec fn keep_component(c: Seq<u8>) -> bool {
    c.len() > 0 && c != seq![46u8]
}

/// The components accumulated from position `i` onwards, given the
/// component built so far (`cur`) and the components already complete
/// (`acc`): bytes extend `cur`, a `/` closes it, and components that
/// `keep_component` rejects are dropped.
pub open spec fn spec_components_from(p: Seq<u8>, i: int, cur: Seq<u8>, acc: Seq<Seq<u8>>) -> Seq<
    Seq<u8>,
>
    decreases p.len() - i,
{
    if i < 0 || i >= p.len() {
        if keep_component(cur) {
            acc.push(cur)
        } else {
            acc
        }
    } else if p[i] == 47 {
        spec_components_from(
            p,
            i + 1,
            seq![],
            if keep_component(cur) {
                acc.push(cur)
            } else {
                acc
            },
        )
    } else {
        spec_components_from(p, i + 1, cur.push(p[i]), acc)
    }
}

/// The `/`-separated components of a path, with empty and `.`
/// components dropped.
pub open spec fn spec_components(p: Seq<u8>) -> Seq<Seq<u8>> {
    spec_components_from(p, 0, seq![], seq![])
}

/// Split a path into its components, dropping empty components (as made
/// by doubled or trailing slashes) and lone `.` components.
pub fn split_components(path: &[u8]) -> (r: Vec<Vec<u8>>)
    ensures
        r.deep_view() == spec_components(path@),
{
    let n: usize = path.len();
    let mut acc: Vec<Vec<u8>> = Vec::new();
    let mut cur: Vec<u8> = Vec::new();
    let mut i: usize = 0;
    proof {
        assert(acc.deep_view() =~= Seq::<Seq<u8>>::empty());
        assert(cur@ =~= Seq::<u8>::empty());
    }
    while i < n
        invariant
            n == path@.len(),
            i <= n,
            spec_components(path@) == spec_components_from(path@, i as int, cur@, acc.deep_view()),
        decreases n - i,
    {
        let b = path[i];
        if b == 47 {
            if keep_component_exec(&cur) {
                let done = cur;
                let ghost pre = acc.deep_view();
                acc.push(done);
                proof {
                    assert(acc.deep_view() =~~= pre.push(done@));
                }
            }
            cur = Vec::new();
            proof {
                assert(cur@ =~= Seq::<u8>::empty());
            }
        } else {
            cur.push(b);
        }
        i = i + 1;
    }
    if keep_component_exec(&cur) {
        let done = cur;
        let ghost pre = acc.deep_view();
        acc.push(done);
        proof {
            assert(acc.deep_view() =~~= pre.push(done@));
        }
    }
    acc
}

/// Whether a component survives splitting: not empty and not `.`.
fn keep_component_exec(c: &Vec<u8>) -> (r: bool)
    ensures
        r == keep_component(c@),
{
    if c.len() == 0 {
        false
    } else if c.len() == 1 && c[0] == 46 {
        proof {
            assert(c@ =~= seq![46u8]);
        }
        false
    } else {
        proof {
            if c@.len() == 1 {
                assert(c@[0] != 46u8);
            }
            if c@ == seq![46u8] {
                assert(c@.len() == 1 && c@[0] == 46u8);
            }
        }
        true
    }
}

} // verus!
