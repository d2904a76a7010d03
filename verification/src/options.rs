//! What the program is asked to do.

use vstd::prelude::*;

use crate::text::str_eq;
use crate::text_map::strings_view;

verus! {

/// The options of the program.
#[derive(Debug, Default, PartialEq, Eq)]
pub struct Options {
    /// Reports go to the console.
    pub debug: bool,
    /// Nothing is launched.
    pub scan_only: bool,
}

impl Options {
    /// Reads the arguments of the program. Arguments that are no option are ignored.
    pub fn parse(args: &Vec<String>) -> (options: Options)
        ensures
            options.debug == strings_view(args@).contains("--debug"@),
            options.scan_only == strings_view(args@).contains("--scan"@),
    {
        let ghost given = strings_view(args@);
        let mut options = Options { debug: false, scan_only: false };
        let mut k: usize = 0;
        while k < args.len()
            invariant
                given == strings_view(args@),
                k <= args@.len() == given.len(),
                options.debug == given.take(k as int).contains("--debug"@),
                options.scan_only == given.take(k as int).contains("--scan"@),
            decreases args.len() - k,
        {
            proof {
                reveal_strlit("--debug");
                reveal_strlit("--scan");
                assert("--debug"@.len() != "--scan"@.len());
                lemma_take_contains(given, k as int, "--debug"@);
                lemma_take_contains(given, k as int, "--scan"@);
                assert(given[k as int] == args@[k as int]@);
            }
            if str_eq(args[k].as_str(), "--debug") {
                options.debug = true;
            } else if str_eq(args[k].as_str(), "--scan") {
                options.scan_only = true;
            }
            k += 1;
        }
        assert(given.take(k as int) =~= given);
        options
    }
}

proof fn lemma_take_contains(s: Seq<Seq<char>>, k: int, text: Seq<char>)
    requires
        0 <= k < s.len(),
    ensures
        s.take(k + 1).contains(text) <==> s.take(k).contains(text) || s[k] == text,
{
    let shorter = s.take(k);
    let longer = s.take(k + 1);
    if shorter.contains(text) {
        let j = choose|j: int| 0 <= j < shorter.len() && shorter[j] == text;
        assert(longer[j] == text);
    }
    if longer.contains(text) {
        let j = choose|j: int| 0 <= j < longer.len() && longer[j] == text;
        if j < k {
            assert(shorter[j] == text);
        }
    }
    assert(longer[k] == s[k]);
}

} // verus!
