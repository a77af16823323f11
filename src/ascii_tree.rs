use vstd::prelude::*;

verus! {

broadcast use vstd::std_specs::vec::axiom_vec_index_decreases;

/// A tree to draw: a titled node with children, or a leaf of lines.
#[derive(PartialEq, Eq, Debug)]
pub enum Tree {
    Node(String, Vec<Tree>),
    Leaf(Vec<String>),
}

/// What stands in front of the first line of an element at one depth: a
/// corner or a branch in the last column, a bar or blank before it.
pub open spec fn mark(l: usize, last: bool) -> Seq<char> {
    if l == 1 {
        if last {
            seq![' ', '└', '─']
        } else {
            seq![' ', ' ', ' ']
        }
    } else {
        if last {
            seq![' ', '├', '─']
        } else {
            seq![' ', '│', ' ']
        }
    }
}

/// What stands in front of a further line of an element at one depth.
pub open spec fn continuation_mark(l: usize) -> Seq<char> {
    if l == 1 {
        seq![' ', ' ', ' ']
    } else {
        seq![' ', '│', ' ']
    }
}

/// The marks of the first `upto` depths of `level`.
pub open spec fn marks(level: Seq<usize>, upto: int) -> Seq<char>
    decreases upto,
{
    if upto <= 0 {
        Seq::empty()
    } else {
        marks(level, upto - 1) + mark(level[upto - 1], upto - 1 == level.len() - 1)
    }
}

pub open spec fn continuation(level: Seq<usize>, upto: int) -> Seq<char>
    decreases upto,
{
    if upto <= 0 {
        Seq::empty()
    } else {
        continuation(level, upto - 1) + continuation_mark(level[upto - 1])
    }
}

/// The first `upto` lines of a leaf, the first right after the marks and the
/// rest behind `second`.
pub open spec fn leaf_text(lines: Seq<Seq<char>>, second: Seq<char>, upto: int) -> Seq<char>
    decreases upto,
{
    if upto <= 0 {
        Seq::empty()
    } else {
        let line = lines[upto - 1];
        leaf_text(lines, second, upto - 1) + (if upto - 1 == 0 {
            seq![' '] + line + seq!['\n']
        } else {
            second + seq![' '] + line + seq!['\n']
        })
    }
}

/// The drawing of `t` at the depth described by `level`: for each depth,
/// how many siblings were still to come when the element was reached.
pub open spec fn tree_text(t: Tree, level: Seq<usize>) -> Seq<char>
    decreases t, 0int,
{
    match t {
        Tree::Node(title, children) => marks(level, level.len() as int) + seq![' '] + title@
            + seq!['\n'] + children_text(children, level, 0),
        Tree::Leaf(lines) => marks(level, level.len() as int) + leaf_text(
            lines@.map_values(|s: String| s@),
            continuation(level, level.len() as int),
            lines@.len() as int,
        ),
    }
}

/// The drawings of the children of a node from the `k`-th on.
pub open spec fn children_text(cs: Vec<Tree>, level: Seq<usize>, k: int) -> Seq<char>
    decreases cs, cs@.len() - k,
{
    if k < 0 || k >= cs@.len() {
        Seq::empty()
    } else {
        tree_text(cs[k], level.push((cs@.len() - k) as usize)) + children_text(cs, level, k + 1)
    }
}

fn extend_level(level: &Vec<usize>, d: usize) -> (r: Vec<usize>)
    ensures
        r@ == level@.push(d),
{
    let mut out: Vec<usize> = Vec::new();
    let mut i: usize = 0;
    while i < level.len()
        invariant
            i <= level@.len(),
            out@ =~= level@.subrange(0, i as int),
        decreases level@.len() - i,
    {
        out.push(level[i]);
        i = i + 1;
    }
    out.push(d);
    assert(out@ =~= level@.push(d));
    out
}

/// Appends the drawing of `tree` to `f`.
pub fn write_tree(f: &mut String, tree: &Tree)
    ensures
        final(f)@ == old(f)@ + tree_text(*tree, Seq::empty()),
{
    let level: Vec<usize> = Vec::new();
    write_tree_element(f, tree, &level);
}

fn write_tree_element(f: &mut String, tree: &Tree, level: &Vec<usize>)
    ensures
        final(f)@ == old(f)@ + tree_text(*tree, level@),
    decreases tree,
{
    let ghost start = f@;
    let maxpos = level.len();
    let mut second_line = String::new();
    let mut pos: usize = 0;
    while pos < maxpos
        invariant
            maxpos == level@.len(),
            pos <= maxpos,
            f@ == start + marks(level@, pos as int),
            second_line@ == continuation(level@, pos as int),
        decreases maxpos - pos,
    {
        let last_row = pos == maxpos - 1;
        proof {
            reveal_strlit("   ");
            reveal_strlit(" └─");
            reveal_strlit(" │ ");
            reveal_strlit(" ├─");
        }
        if level[pos] == 1 {
            if !last_row {
                f.append("   ");
            } else {
                f.append(" └─");
            }
            second_line.append("   ");
        } else {
            if !last_row {
                f.append(" │ ");
            } else {
                f.append(" ├─");
            }
            second_line.append(" │ ");
        }
        assert(f@ =~= start + marks(level@, pos + 1));
        assert(second_line@ =~= continuation(level@, pos + 1));
        pos = pos + 1;
    }
    let ghost after_marks = f@;
    match tree {
        Tree::Node(title, children) => {
            proof {
                reveal_strlit(" ");
                reveal_strlit("\n");
            }
            f.append(" ");
            f.append(title.as_str());
            f.append("\n");
            let ghost head = f@;
            assert(head =~= start + marks(level@, maxpos as int) + seq![' '] + title@ + seq!['\n']);
            let n = children.len();
            let mut k: usize = 0;
            while k < n
                invariant
                    *tree == Tree::Node(*title, *children),
                    n == children@.len(),
                    k <= n,
                    head + children_text(*children, level@, 0) == f@ + children_text(
                        *children,
                        level@,
                        k as int,
                    ),
                decreases n - k,
            {
                let lnext = extend_level(level, n - k);
                proof {
                    assert(decreases_to!(*tree => (*tree)->Node_1));
                    assert(decreases_to!((*tree)->Node_1 => (*tree)->Node_1[k as int]));
                }
                let ghost before = f@;
                write_tree_element(f, &children[k], &lnext);
                assert(children_text(*children, level@, k as int) == tree_text(
                    children[k as int],
                    level@.push((n - k) as usize),
                ) + children_text(*children, level@, k + 1));
                assert(f@ + children_text(*children, level@, k + 1) =~= before + children_text(
                    *children,
                    level@,
                    k as int,
                ));
                k = k + 1;
            }
            assert(children_text(*children, level@, k as int) =~= Seq::<char>::empty());
            assert(f@ =~= head + children_text(*children, level@, 0));
        },
        Tree::Leaf(lines) => {
            let ghost texts = lines@.map_values(|s: String| s@);
            let mut i: usize = 0;
            while i < lines.len()
                invariant
                    texts == lines@.map_values(|s: String| s@),
                    i <= lines@.len(),
                    second_line@ == continuation(level@, level@.len() as int),
                    f@ == after_marks + leaf_text(texts, second_line@, i as int),
                decreases lines@.len() - i,
            {
                proof {
                    reveal_strlit(" ");
                    reveal_strlit("\n");
                }
                if i == 0 {
                    f.append(" ");
                } else {
                    f.append(second_line.as_str());
                    f.append(" ");
                }
                f.append(lines[i].as_str());
                f.append("\n");
                assert(texts[i as int] == lines@[i as int]@);
                assert(f@ =~= after_marks + leaf_text(texts, second_line@, i + 1));
                i = i + 1;
            }
        },
    }
}

} // verus!
