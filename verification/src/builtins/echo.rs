//! The `echo` builtin: prints its arguments back.

use vstd::prelude::*;

verus! {

/// The text `echo` produces: every argument in order, each followed by one
/// space.
pub open spec fn echoed(args: Seq<Seq<char>>) -> Seq<char>
    decreases args.len(),
{
    if args.len() == 0 {
        Seq::empty()
    } else {
        echoed(args.drop_last()) + args.last() + seq![' ']
    }
}

/// Just like you know it: concatenates the arguments, one space after each.
pub fn echo(args: &[String]) -> (output: String)
    ensures
        output@ == echoed(args@.map_values(|a: String| a@)),
{
    let ghost views = args@.map_values(|a: String| a@);
    let mut output = String::new();
    let mut i: usize = 0;
    while i < args.len()
        invariant
            i <= args.len(),
            views == args@.map_values(|a: String| a@),
            output@ == echoed(views.take(i as int)),
        decreases args.len() - i,
    {
        output.append(args[i].as_str());
        output.append(" ");
        proof {
            reveal_strlit(" ");
            let pre = views.take(i as int);
            let cur = views.take(i + 1 as int);
            assert(cur.drop_last() =~= pre);
            assert(cur.last() == views[i as int]);
            assert(" "@ =~= seq![' ']);
            assert(output@ =~= echoed(cur));
        }
        i += 1;
    }
    proof {
        assert(views.take(args@.len() as int) =~= views);
    }
    output
}

} // verus!
