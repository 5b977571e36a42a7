//! Plain-text rendering of an indented tree listing.
//!
//! Each entry of a listing is a name with a depth; an entry at depth zero is
//! printed bare, a deeper one behind a bar, one dash per level, and a space.

use vstd::prelude::*;

verus! {

/// Relies on `String::push`: it appends exactly the given character.
pub assume_specification[ String::push ](s: &mut String, c: char)
    ensures
        final(s)@ == old(s)@.push(c),
;

/// Relies on `String::push_str`: it appends exactly the given string.
pub assume_specification[ String::push_str ](s: &mut String, other: &str)
    ensures
        final(s)@ == old(s)@ + other@,
;

/// The rendering of one listing entry: nothing before a root name, and a
/// bar, one dash per depth level, and a space before a deeper one.
pub open spec fn line_chars(arg: Seq<char>, depth: nat) -> Seq<char> {
    if depth == 0 {
        arg
    } else {
        seq!['|'] + Seq::new(depth, |i: int| '-') + seq![' '] + arg
    }
}

/// Renders one listing entry at its depth.
pub fn line(arg: &str, depth: usize) -> (r: String)
    ensures
        r@ == line_chars(arg@, depth as nat),
{
    let mut out = String::new();
    if depth == 0 {
        out.push_str(arg);
        proof {
            assert(out@ =~= line_chars(arg@, 0));
        }
        return out;
    }
    out.push('|');
    let mut i: usize = 0;
    while i < depth
        invariant
            i <= depth,
            out@ == seq!['|'] + Seq::new(i as nat, |j: int| '-'),
        decreases depth - i,
    {
        out.push('-');
        proof {
            assert(out@ =~= seq!['|'] + Seq::new((i + 1) as nat, |j: int| '-'));
        }
        i += 1;
    }
    out.push(' ');
    out.push_str(arg);
    proof {
        assert(out@ =~= line_chars(arg@, depth as nat));
    }
    out
}

/// The rendering of a whole listing: each entry on its own line, a newline
/// between entries and none at the end.
pub open spec fn listing_chars(entries: Seq<(Seq<char>, nat)>) -> Seq<char>
    decreases entries.len(),
{
    if entries.len() == 0 {
        Seq::empty()
    } else if entries.len() == 1 {
        line_chars(entries[0].0, entries[0].1)
    } else {
        listing_chars(entries.drop_last()) + seq!['\n'] + line_chars(
            entries.last().0,
            entries.last().1,
        )
    }
}

/// Renders a listing of (name, depth) entries, one per line.
pub fn render_listing(entries: &Vec<(String, usize)>) -> (r: String)
    ensures
        r@ == listing_chars(entries@.map(|i: int, e: (String, usize)| (e.0@, e.1 as nat))),
{
    let ghost em = entries@.map(|i: int, e: (String, usize)| (e.0@, e.1 as nat));
    let mut out = String::new();
    let mut i: usize = 0;
    proof {
        assert(em.subrange(0, 0) =~= Seq::<(Seq<char>, nat)>::empty());
    }
    while i < entries.len()
        invariant
            i <= entries@.len(),
            em == entries@.map(|i: int, e: (String, usize)| (e.0@, e.1 as nat)),
            em.len() == entries@.len(),
            out@ == listing_chars(em.subrange(0, i as int)),
        decreases entries@.len() - i,
    {
        if i > 0 {
            out.push('\n');
        }
        let entry_line = line(&entries[i].0, entries[i].1);
        out.push_str(entry_line.as_str());
        proof {
            let pre = em.subrange(0, i as int);
            let cur = em.subrange(0, i + 1);
            assert(cur.drop_last() =~= pre);
            assert(cur.last() == em[i as int]);
            if i == 0 {
                assert(out@ =~= listing_chars(cur));
            } else {
                assert(out@ =~= listing_chars(cur));
            }
        }
        i += 1;
    }
    proof {
        assert(em.subrange(0, em.len() as int) =~= em);
    }
    out
}

} // verus!
