//! Path spellings: `/`-separated text, read component by component without touching
//! the file system.
use vstd::prelude::*;

verus! {

broadcast use crate::text::lemma_chars_deep_view;

/// The pieces of `s` between occurrences of `sep` (`str::split`): always at least one piece.
pub open spec fn split_on(s: Seq<char>, sep: char) -> Seq<Seq<char>>
    decreases s.len(),
{
    if s.len() == 0 {
        seq![Seq::empty()]
    } else {
        let init = split_on(s.drop_last(), sep);
        if s.last() == sep {
            init.push(Seq::empty())
        } else {
            init.update(init.len() - 1, init.last().push(s.last()))
        }
    }
}

pub proof fn lemma_split_on_len(s: Seq<char>, sep: char)
    ensures
        split_on(s, sep).len() >= 1,
    decreases s.len(),
{
    if s.len() > 0 {
        lemma_split_on_len(s.drop_last(), sep);
    }
}

/// Splits `s` at every `sep`.
pub fn split_chars(s: &[char], sep: char) -> (pieces: Vec<Vec<char>>)
    ensures
        pieces.deep_view() == split_on(s@, sep),
{
    let mut pieces: Vec<Vec<char>> = Vec::new();
    let mut current: Vec<char> = Vec::new();
    let mut i: usize = 0;
    while i < s.len()
        invariant
            0 <= i <= s@.len(),
            pieces.deep_view().push(current@) == split_on(s@.take(i as int), sep),
        decreases s@.len() - i,
    {
        let ghost before = pieces.deep_view().push(current@);
        proof {
            assert(s@.take(i + 1).drop_last() =~= s@.take(i as int));
            lemma_split_on_len(s@.take(i as int), sep);
        }
        if s[i] == sep {
            let ghost old_pieces = pieces.deep_view();
            let ghost old_current = current@;
            pieces.push(current);
            current = Vec::new();
            proof {
                assert(pieces.deep_view() =~= old_pieces.push(old_current));
                assert(pieces.deep_view().push(current@) =~= before.push(Seq::empty()));
            }
        } else {
            current.push(s[i]);
            proof {
                assert(pieces.deep_view().push(current@) =~= before.update(
                    before.len() - 1,
                    before.last().push(s@[i as int]),
                ));
            }
        }
        i = i + 1;
    }
    let ghost old_pieces = pieces.deep_view();
    let ghost old_current = current@;
    pieces.push(current);
    proof {
        assert(pieces.deep_view() =~= old_pieces.push(old_current));
        assert(s@.take(s@.len() as int) =~= s@);
    }
    pieces
}

/// A component that names no step: empty (`a//b`, trailing `/`) or `.`.
pub open spec fn is_trivial(c: Seq<char>) -> bool {
    c.len() == 0 || c == seq!['.']
}

/// The pieces that name a step.
pub open spec fn nontrivial(pieces: Seq<Seq<char>>) -> Seq<Seq<char>>
    decreases pieces.len(),
{
    if pieces.len() == 0 {
        Seq::empty()
    } else if is_trivial(pieces.last()) {
        nontrivial(pieces.drop_last())
    } else {
        nontrivial(pieces.drop_last()).push(pieces.last())
    }
}

/// Whether the path starts at the file-system root.
pub open spec fn is_absolute(s: Seq<char>) -> bool {
    s.len() > 0 && s[0] == '/'
}

/// The named steps of a path spelling, in order (`/a/./b//c/` reads as `a`, `b`, `c`).
pub open spec fn path_components(s: Seq<char>) -> Seq<Seq<char>> {
    nontrivial(split_on(s, '/'))
}

pub fn is_trivial_piece(c: &Vec<char>) -> (b: bool)
    ensures
        b == is_trivial(c@),
{
    if c.len() == 0 {
        return true;
    }
    if c.len() == 1 && c[0] == '.' {
        assert(c@ =~= seq!['.']);
        return true;
    }
    if c.len() == 1 {
        assert(c@[0] != seq!['.'][0]);
    }
    false
}

/// A copy of the characters.
pub fn clone_chars(c: &Vec<char>) -> (copy: Vec<char>)
    ensures
        copy@ == c@,
{
    let mut copy: Vec<char> = Vec::new();
    crate::text::push_all(&mut copy, c.as_slice());
    copy
}

/// The named steps of a path spelling.
pub fn components_of(s: &[char]) -> (components: Vec<Vec<char>>)
    ensures
        components.deep_view() == path_components(s@),
{
    let pieces = split_chars(s, '/');
    let mut components: Vec<Vec<char>> = Vec::new();
    let mut i: usize = 0;
    while i < pieces.len()
        invariant
            0 <= i <= pieces@.len(),
            pieces.deep_view() == split_on(s@, '/'),
            components.deep_view() == nontrivial(pieces.deep_view().take(i as int)),
        decreases pieces@.len() - i,
    {
        proof {
            assert(pieces.deep_view().take(i + 1).drop_last() =~= pieces.deep_view().take(
                i as int,
            ));
            assert(pieces.deep_view()[i as int] == pieces@[i as int]@);
        }
        if !is_trivial_piece(&pieces[i]) {
            let ghost old_components = components.deep_view();
            let piece = clone_chars(&pieces[i]);
            components.push(piece);
            proof {
                assert(components.deep_view() =~= old_components.push(pieces@[i as int]@));
                assert(components.deep_view() =~= nontrivial(
                    pieces.deep_view().take(i as int),
                ).push(pieces.deep_view()[i as int]));
            }
        }
        i = i + 1;
    }
    proof {
        assert(pieces.deep_view().take(pieces@.len() as int) =~= pieces.deep_view());
    }
    components
}

/// Components joined with `/`, with a leading `/` when absolute (`PathBuf` collected from
/// its components).
pub open spec fn joined(absolute: bool, components: Seq<Seq<char>>) -> Seq<char>
    decreases components.len(),
{
    if components.len() == 0 {
        if absolute {
            seq!['/']
        } else {
            Seq::empty()
        }
    } else if components.len() == 1 {
        if absolute {
            seq!['/'] + components[0]
        } else {
            components[0]
        }
    } else {
        joined(absolute, components.drop_last()) + seq!['/'] + components.last()
    }
}

/// Spells components back as a path.
pub fn join_components(absolute: bool, components: &Vec<Vec<char>>) -> (s: Vec<char>)
    ensures
        s@ == joined(absolute, components.deep_view()),
{
    let mut out: Vec<char> = Vec::new();
    if absolute {
        out.push('/');
    }
    let mut i: usize = 0;
    while i < components.len()
        invariant
            0 <= i <= components@.len(),
            i == 0 ==> out@ == (if absolute { seq!['/'] } else { Seq::<char>::empty() }),
            i > 0 ==> out@ == joined(absolute, components.deep_view().take(i as int)),
        decreases components@.len() - i,
    {
        let ghost prefix = components.deep_view().take(i + 1);
        proof {
            assert(prefix.drop_last() =~= components.deep_view().take(i as int));
            assert(prefix.last() == components@[i as int]@);
        }
        if i > 0 {
            out.push('/');
        }
        crate::text::push_all(&mut out, components[i].as_slice());
        proof {
            if i == 0 {
                assert(prefix.len() == 1);
                assert(prefix[0] == components@[0]@);
            }
        }
        i = i + 1;
    }
    proof {
        assert(components.deep_view().take(components@.len() as int) =~= components.deep_view());
    }
    out
}

/// Whether two components spell the same name.
pub fn same_component(a: &Vec<char>, b: &Vec<char>) -> (same: bool)
    ensures
        same == (a@ == b@),
{
    if a.len() != b.len() {
        return false;
    }
    let mut i: usize = 0;
    while i < a.len()
        invariant
            0 <= i <= a@.len(),
            a@.len() == b@.len(),
            forall|j: int| 0 <= j < i ==> a@[j] == b@[j],
        decreases a@.len() - i,
    {
        if a[i] != b[i] {
            return false;
        }
        i = i + 1;
    }
    assert(a@ =~= b@);
    true
}

/// The number of leading components the two sequences share.
pub open spec fn common_prefix_len(a: Seq<Seq<char>>, b: Seq<Seq<char>>) -> nat
    decreases a.len(),
{
    if a.len() == 0 || b.len() == 0 || a[0] != b[0] {
        0
    } else {
        1 + common_prefix_len(a.drop_first(), b.drop_first())
    }
}

pub proof fn lemma_common_prefix_len(a: Seq<Seq<char>>, b: Seq<Seq<char>>)
    ensures
        common_prefix_len(a, b) <= a.len(),
        common_prefix_len(a, b) <= b.len(),
        forall|j: int| 0 <= j < common_prefix_len(a, b) ==> a[j] == b[j],
        common_prefix_len(a, b) < a.len() && common_prefix_len(a, b) < b.len() ==> a[common_prefix_len(
            a,
            b,
        ) as int] != b[common_prefix_len(a, b) as int],
    decreases a.len(),
{
    if !(a.len() == 0 || b.len() == 0 || a[0] != b[0]) {
        lemma_common_prefix_len(a.drop_first(), b.drop_first());
        assert forall|j: int| 0 <= j < common_prefix_len(a, b) implies a[j] == b[j] by {
            if j > 0 {
                assert(a[j] == a.drop_first()[j - 1]);
                assert(b[j] == b.drop_first()[j - 1]);
            }
        }
    }
}

/// The number of leading components the two share.
pub fn shared_prefix_len(a: &Vec<Vec<char>>, b: &Vec<Vec<char>>) -> (n: usize)
    ensures
        n == common_prefix_len(a.deep_view(), b.deep_view()),
{
    proof {
        lemma_common_prefix_len(a.deep_view(), b.deep_view());
    }
    let mut n: usize = 0;
    while n < a.len() && n < b.len() && same_component(&a[n], &b[n])
        invariant
            n <= a@.len(),
            n <= b@.len(),
            forall|j: int| 0 <= j < n ==> a.deep_view()[j] == b.deep_view()[j],
        decreases a@.len() - n,
    {
        proof {
            assert(a.deep_view()[n as int] == a@[n as int]@);
            assert(b.deep_view()[n as int] == b@[n as int]@);
        }
        n = n + 1;
    }
    proof {
        let c = common_prefix_len(a.deep_view(), b.deep_view());
        if n < c {
            assert(a.deep_view()[n as int] == a@[n as int]@);
            assert(b.deep_view()[n as int] == b@[n as int]@);
        }
        if n > c {
            assert(a.deep_view()[c as int] == b.deep_view()[c as int]);
        }
    }
    n
}

} // verus!
