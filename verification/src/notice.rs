//! The operator's stream, as text: every notice line carries the `skepd: `
//! prefix, so each line on a shared stream is attributable, and a notice of
//! several lines is ONE entry — its head, then each further line indented
//! under it — so a reader can tell where it ends. Writing it out is the
//! caller's, and never fails the work the notice is about.

use vstd::prelude::*;

verus! {

/// One notice line.
pub open spec fn line_spec(msg: Seq<char>) -> Seq<char> {
    "skepd: "@ + msg
}

/// The lines after a block's head, each on its own indented line.
pub open spec fn rest_spec(rest: Seq<Seq<char>>) -> Seq<char>
    decreases rest.len(),
{
    if rest.len() == 0 {
        Seq::empty()
    } else {
        rest_spec(rest.drop_last()) + "\nskepd:   "@ + rest.last()
    }
}

/// The text of one notice line.
pub fn line(msg: &str) -> (s: String)
    ensures
        s@ == line_spec(msg@),
{
    let mut s = "skepd: ".to_string();
    s.append(msg);
    s
}

/// The text of one notice spanning several lines: `head`, then each of
/// `rest` indented beneath it, as one entry.
pub fn block(head: &str, rest: &Vec<String>) -> (s: String)
    ensures
        s@ == line_spec(head@) + rest_spec(Seq::new(rest@.len(), |i: int| rest@[i]@)),
{
    let ghost all = Seq::new(rest@.len(), |i: int| rest@[i]@);
    let mut entry = line(head);
    let mut i: usize = 0;
    while i < rest.len()
        invariant
            0 <= i <= rest@.len(),
            all == Seq::new(rest@.len(), |i: int| rest@[i]@),
            entry@ == line_spec(head@) + rest_spec(all.take(i as int)),
        decreases rest@.len() - i,
    {
        entry.append("\nskepd:   ");
        entry.append(rest[i].as_str());
        proof {
            assert(all.take(i + 1).drop_last() =~= all.take(i as int));
        }
        i = i + 1;
    }
    assert(all.take(i as int) =~= all);
    entry
}

} // verus!
