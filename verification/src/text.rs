//! Joining lines of text.
use vstd::prelude::*;
use vstd::string::StringExecFns;

verus! {

/// The parts joined with `sep` between each two neighbours.
pub open spec fn join_with(parts: Seq<Seq<char>>, sep: Seq<char>) -> Seq<char>
    decreases parts.len(),
{
    if parts.len() == 0 {
        Seq::empty()
    } else if parts.len() == 1 {
        parts[0]
    } else {
        join_with(parts.drop_last(), sep) + sep + parts.last()
    }
}

/// The text of each string of a list.
pub open spec fn texts(lines: Seq<String>) -> Seq<Seq<char>> {
    lines.map_values(|s: String| s@)
}

/// The lines joined with a newline between each two (what `join("\n")`
/// gives).
pub fn join_lines(lines: &Vec<String>) -> (r: String)
    ensures
        r@ == join_with(texts(lines@), seq!['\n']),
{
    let sep = "\n";
    proof {
        reveal_strlit("\n");
    }
    let mut res = String::new();
    let ghost parts = texts(lines@);
    let mut i: usize = 0;
    while i < lines.len()
        invariant
            parts == texts(lines@),
            sep@ == seq!['\n'],
            i <= lines.len(),
            res@ == join_with(parts.take(i as int), seq!['\n']),
        decreases lines.len() - i,
    {
        if i != 0 {
            res.append(sep);
        }
        res.append(lines[i].as_str());
        proof {
            assert(parts.take(i + 1).drop_last() =~= parts.take(i as int));
            assert(parts[i as int] == lines@[i as int]@);
        }
        i = i + 1;
    }
    proof {
        assert(parts.take(lines.len() as int) =~= parts);
    }
    res
}


/// Joining puts the separator between each two neighbouring parts and
/// nowhere else: no parts give the empty text, one part gives that part, and
/// one more part adds the separator and that part to the end.
pub proof fn lemma_join_with_parts(parts: Seq<Seq<char>>, p: Seq<char>, sep: Seq<char>)
    ensures
        join_with(Seq::<Seq<char>>::empty(), sep) == Seq::<char>::empty(),
        join_with(seq![p], sep) == p,
        parts.len() > 0 ==> join_with(parts.push(p), sep) == join_with(parts, sep) + sep + p,
{
    assert(seq![p].len() == 1);
    if parts.len() > 0 {
        assert(parts.push(p).drop_last() =~= parts);
    }
}

/// The length of joined parts: the parts' lengths, and one separator for
/// each two neighbours.
pub proof fn lemma_join_with_len(parts: Seq<Seq<char>>, sep: Seq<char>)
    requires
        parts.len() > 0,
    ensures
        join_with(parts, sep).len() == parts.fold_left(0nat, |acc: nat, q: Seq<char>| acc + q.len())
            + (parts.len() - 1) * sep.len(),
    decreases parts.len(),
{
    if parts.len() > 1 {
        lemma_join_with_len(parts.drop_last(), sep);
        assert((parts.len() - 1) * sep.len() == (parts.len() - 2) * sep.len() + sep.len()) by (nonlinear_arith);
    } else {
        assert(parts.drop_last().fold_left(0nat, |acc: nat, q: Seq<char>| acc + q.len()) == 0) by {
            assert(parts.drop_last() =~= Seq::<Seq<char>>::empty());
        }
    }
}

} // verus!
