//! Paths as the file system's names for things: two texts may be one path.

use crate::text::{pieces, same, split_pieces, texts, texts_push};
use vstd::prelude::*;

verus! {

/// Whether a piece between slashes names a step: neither empty nor `.`.
pub open spec fn is_step(x: Seq<char>) -> bool {
    x.len() > 0 && x != "."@
}

pub open spec fn steps_only() -> spec_fn(Seq<char>) -> bool {
    |x: Seq<char>| is_step(x)
}

/// The steps of a path; repeated and trailing slashes and `.` are none.
pub open spec fn steps(path: Seq<char>) -> Seq<Seq<char>> {
    pieces(path, '/').filter(steps_only())
}

/// A path from the root.
pub open spec fn rooted(path: Seq<char>) -> bool {
    path.len() > 0 && path[0] == '/'
}

/// A path that says that it starts here: `.`, or `./` and more.
pub open spec fn starts_here(path: Seq<char>) -> bool {
    pieces(path, '/')[0] == "."@
}

/// Whether two texts are one path: they start from the same place and take
/// the same steps.
pub open spec fn same_path(a: Seq<char>, b: Seq<char>) -> bool {
    rooted(a) == rooted(b) && starts_here(a) == starts_here(b) && steps(a) == steps(b)
}

fn step_list(v: &Vec<String>) -> (r: Vec<String>)
    ensures
        texts(r@) == texts(v@).filter(steps_only()),
{
    let ghost all = texts(v@);
    let mut r: Vec<String> = Vec::new();
    let mut i: usize = 0;
    proof {
        reveal(Seq::filter);
        assert(all.take(0).filter(steps_only()) =~= texts(r@));
    }
    while i < v.len()
        invariant
            i <= v.len(),
            all == texts(v@),
            texts(r@) == all.take(i as int).filter(steps_only()),
        decreases v.len() - i,
    {
        let x = v[i].as_str();
        proof {
            reveal(Seq::filter);
            assert(all.take(i + 1).drop_last() =~= all.take(i as int));
            assert(all.take(i + 1).last() == x@);
        }
        if x.unicode_len() > 0 && !same(x, ".") {
            let y = v[i].clone();
            proof {
                assert(steps_only()(x@));
                texts_push(r@, y);
            }
            r.push(y);
        } else {
            assert(!steps_only()(x@));
        }
        i += 1;
    }
    proof {
        assert(all.take(i as int) =~= all);
    }
    r
}

fn equal_texts(a: &Vec<String>, b: &Vec<String>) -> (r: bool)
    ensures
        r == (texts(a@) == texts(b@)),
{
    proof {
        assert(texts(a@).len() == a@.len() && texts(b@).len() == b@.len());
    }
    if a.len() != b.len() {
        return false;
    }
    let mut i: usize = 0;
    while i < a.len()
        invariant
            i <= a.len(),
            a.len() == b.len(),
            forall|k: int| 0 <= k < i ==> #[trigger] texts(a@)[k] == texts(b@)[k],
        decreases a.len() - i,
    {
        if !same(a[i].as_str(), b[i].as_str()) {
            proof {
                assert(texts(a@)[i as int] != texts(b@)[i as int]);
            }
            return false;
        }
        i += 1;
    }
    proof {
        assert(texts(a@) =~= texts(b@));
    }
    true
}

fn from_root(path: &str) -> (r: bool)
    ensures
        r == rooted(path@),
{
    path.unicode_len() > 0 && path.get_char(0) == '/'
}

/// Whether two texts are one path.
pub fn equal_paths(a: &str, b: &str) -> (r: bool)
    ensures
        r == same_path(a@, b@),
{
    let x = split_pieces(a, '/');
    let y = split_pieces(b, '/');
    proof {
        assert(pieces(a@, '/').len() > 0 && pieces(b@, '/').len() > 0);
        assert(texts(x@).len() == x@.len() && texts(y@).len() == y@.len());
        assert(texts(x@)[0] == x@[0]@ && texts(y@)[0] == y@[0]@);
    }
    let here: bool = same(x[0].as_str(), ".") == same(y[0].as_str(), ".");
    let s = step_list(&x);
    let t = step_list(&y);
    from_root(a) == from_root(b) && here && equal_texts(&s, &t)
}

/// One path is one path from either side, and from one to the next.
pub proof fn paths_are_told_apart(a: Seq<char>, b: Seq<char>, c: Seq<char>)
    ensures
        same_path(a, a),
        same_path(a, b) == same_path(b, a),
        same_path(a, b) && same_path(b, c) ==> same_path(a, c),
{
}

} // verus!
