//! The external programs that the tool runs, as plain values: a program name and
//! its arguments.

use vstd::prelude::*;

verus! {

/// A program to run and the arguments to give it.
pub struct Command {
    pub program: String,
    pub args: Vec<String>,
}

impl View for Command {
    type V = (Seq<char>, Seq<Seq<char>>);

    open spec fn view(&self) -> (Seq<char>, Seq<Seq<char>>) {
        (self.program@, self.args.deep_view())
    }
}

/// Appends a copy of `s` to `v`.
pub fn push_str(v: &mut Vec<String>, s: &str)
    ensures
        final(v).deep_view() == old(v).deep_view().push(s@),
{
    let ghost before = v.deep_view();
    v.push(crate::text::copy_str(s));
    assert(v.deep_view() =~= before.push(s@));
}

/// Appends copies of all strings of `items` to `v`, in order.
pub fn push_all(v: &mut Vec<String>, items: &Vec<String>)
    ensures
        final(v).deep_view() == old(v).deep_view() + items.deep_view(),
{
    let ghost start = v.deep_view();
    let ghost dv = items.deep_view();
    for i in 0..items.len()
        invariant
            dv == items.deep_view(),
            v.deep_view() == start + dv.take(i as int),
    {
        assert(items[i as int]@ == dv[i as int]);
        push_str(v, items[i].as_str());
        assert(start + dv.take(i + 1) =~= (start + dv.take(i as int)).push(dv[i as int]));
    }
    assert(dv.take(items.len() as int) =~= dv);
}

} // verus!
