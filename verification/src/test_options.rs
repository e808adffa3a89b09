//! The options of the attribute that marks a test of the intermediate
//! representation.
use vstd::prelude::*;

verus! {

/// An argument of the attribute of the form `name = "value"`.
pub struct AttrArg {
    pub name: String,
    pub value: String,
}

/// How a test is run.
pub struct MonoTestOptions {
    /// The mode in which the test is compiled.
    pub mode: String,
    /// The generated code is not checked.
    pub no_check: bool,
}

/// The mode that the arguments choose: the value of the last argument
/// named `mode`, or `exec` if there is none.
pub open spec fn mode_of(args: Seq<AttrArg>) -> Seq<char>
    decreases args.len(),
{
    if args.len() == 0 {
        "exec"@
    } else if args.last().name@ == "mode"@ {
        args.last().value@
    } else {
        mode_of(args.drop_last())
    }
}

/// Whether an argument is named `no_check`, whatever its value.
pub open spec fn no_check_of(args: Seq<AttrArg>) -> bool {
    exists|i: int| 0 <= i < args.len() && (#[trigger] args[i]).name@ == "no_check"@
}

/// Reads the options from the arguments of the attribute that have a name
/// and a string for a value. Arguments with other names are passed over.
pub fn mono_test_options(args: &[AttrArg]) -> (options: MonoTestOptions)
    ensures
        options.mode@ == mode_of(args@),
        options.no_check == no_check_of(args@),
{
    let mode_name = "mode".to_owned();
    let no_check_name = "no_check".to_owned();
    let mut no_check = false;
    let mut mode = "exec".to_owned();
    let mut i: usize = 0;
    assert(args@.take(0) =~= Seq::<AttrArg>::empty());
    while i < args.len()
        invariant
            i <= args@.len(),
            mode_name@ == "mode"@,
            no_check_name@ == "no_check"@,
            mode@ == mode_of(args@.take(i as int)),
            no_check == no_check_of(args@.take(i as int)),
        decreases args@.len() - i,
    {
        let arg = &args[i];
        let ghost before = args@.take(i as int);
        let ghost after = args@.take(i + 1);
        proof {
            assert(after.drop_last() =~= before);
            assert(after.last() == args@[i as int]);
        }
        if arg.name == mode_name {
            mode = arg.value.clone();
        }
        if arg.name == no_check_name {
            no_check = true;
        }
        proof {
            if no_check_of(before) {
                let j = choose|j: int| 0 <= j < before.len() && (#[trigger] before[j]).name@ == "no_check"@;
                assert(after[j] == before[j]);
            }
            if arg.name@ == "no_check"@ {
                assert(after[i as int].name@ == "no_check"@);
            }
            if no_check_of(after) && !(arg.name@ == "no_check"@) {
                let j = choose|j: int| 0 <= j < after.len() && (#[trigger] after[j]).name@ == "no_check"@;
                assert(j < i);
                assert(before[j] == after[j]);
            }
        }
        i += 1;
    }
    assert(args@.take(args@.len() as int) =~= args@);
    MonoTestOptions { mode, no_check }
}

} // verus!
