//! Tag paths: splitting a configured path string and matching an element's
//! position in the document against it.

use vstd::prelude::*;
use vstd::string::StrSliceExecFns;

verus! {

/// The views of a sequence of strings.
pub open spec fn views(v: Seq<String>) -> Seq<Seq<char>> {
    v.map_values(|s: String| s@)
}

/// `s` cut at every comma, commas dropped, nothing trimmed: `k` commas give `k + 1` pieces.
pub open spec fn split_commas(s: Seq<char>) -> Seq<Seq<char>>
    decreases s.len(),
{
    if s.len() == 0 {
        seq![Seq::<char>::empty()]
    } else if s.last() == ',' {
        split_commas(s.drop_last()).push(Seq::<char>::empty())
    } else {
        let p = split_commas(s.drop_last());
        p.update(p.len() - 1, p.last().push(s.last()))
    }
}

/// An element named `name` whose open ancestors are `stack` (outermost first)
/// stands exactly at `target`.
pub open spec fn at_path(stack: Seq<Seq<char>>, name: Seq<char>, target: Seq<Seq<char>>) -> bool {
    stack.push(name) == target
}

/// Splits a comma-separated tag path into its tag names, keeping any
/// whitespace around the commas as part of the names.
pub fn split_path(path: &str) -> (parts: Vec<String>)
    ensures
        views(parts@) == split_commas(path@),
{
    let n = path.unicode_len();
    let mut parts: Vec<String> = Vec::new();
    let mut start: usize = 0;
    let mut i: usize = 0;
    assert(path@.subrange(0, 0) =~= Seq::<char>::empty());
    assert(views(parts@).push(Seq::<char>::empty()) =~= seq![Seq::<char>::empty()]);
    while i < n
        invariant
            n == path@.len(),
            start <= i <= n,
            split_commas(path@.subrange(0, i as int)) == views(parts@).push(
                path@.subrange(start as int, i as int),
            ),
        decreases n - i,
    {
        let c = path.get_char(i);
        let ghost before = path@.subrange(0, i as int);
        let ghost after = path@.subrange(0, i + 1);
        assert(after.drop_last() == before);
        assert(after.last() == c);
        if c == ',' {
            let piece = path.substring_char(start, i).to_owned();
            parts.push(piece);
            assert(views(parts@) == split_commas(before));
            assert(path@.subrange(i + 1, i + 1) == Seq::<char>::empty());
            start = i + 1;
        } else {
            assert(path@.subrange(start as int, i + 1) == path@.subrange(
                start as int,
                i as int,
            ).push(c));
        }
        i = i + 1;
    }
    assert(path@.subrange(0, n as int) == path@);
    let last = path.substring_char(start, n).to_owned();
    parts.push(last);
    assert(views(parts@) == split_commas(path@));
    parts
}

/// Whether the element `name`, with the open elements `stack` above it, stands
/// exactly at `target`: same length, same names in the same order, compared
/// as they are.
pub fn is_match(stack: &Vec<String>, name: &String, target: &Vec<String>) -> (r: bool)
    ensures
        r == at_path(views(stack@), name@, views(target@)),
{
    let n = stack.len();
    if n >= target.len() || n + 1 != target.len() {
        proof {
            if at_path(views(stack@), name@, views(target@)) {
                assert(views(target@).len() == views(stack@).len() + 1);
            }
        }
        return false;
    }
    let mut i: usize = 0;
    while i < n
        invariant
            n == stack@.len(),
            n + 1 == target@.len(),
            i <= n,
            forall|j: int| 0 <= j < i ==> stack@[j]@ == target@[j]@,
        decreases n - i,
    {
        if stack[i] != target[i] {
            proof {
                assert(views(stack@).push(name@)[i as int] == stack@[i as int]@);
                assert(views(target@)[i as int] == target@[i as int]@);
            }
            return false;
        }
        i = i + 1;
    }
    let same_last = *name == target[n];
    proof {
        if same_last {
            assert(views(stack@).push(name@) =~= views(target@));
        } else {
            assert(views(stack@).push(name@)[n as int] == name@);
            assert(views(target@)[n as int] == target@[n as int]@);
        }
    }
    same_last
}

} // verus!
