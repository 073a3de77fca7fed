//! Command-line options.
use vstd::prelude::*;
use vstd::string::{StrSliceExecFns, StringExecFns};

verus! {

/// What the command line asks for.
pub struct CliOptions {
    /// Directory whose Rust files are scanned.
    pub dir_to_scan: String,
    /// Cleared by `--png`.
    pub generate_png: bool,
}

/// Options after reading `args` (without the program name) in order:
/// `--png` clears `generate_png`; any argument not starting with `--` becomes
/// the directory; other arguments are ignored. The defaults are `src` and `true`.
pub open spec fn options_of(args: Seq<Seq<char>>) -> (Seq<char>, bool)
    decreases args.len(),
{
    if args.len() == 0 {
        ("src"@, true)
    } else {
        let (dir, png) = options_of(args.drop_last());
        let a = args.last();
        if a == "--png"@ {
            (dir, false)
        } else if !is_prefix("--"@, a) {
            (a, png)
        } else {
            (dir, png)
        }
    }
}

/// The arguments after the program name.
pub open spec fn after_program_name(args: Seq<Seq<char>>) -> Seq<Seq<char>> {
    if args.len() == 0 {
        Seq::empty()
    } else {
        args.skip(1)
    }
}

/// `p` is a prefix of `s`.
pub open spec fn is_prefix(p: Seq<char>, s: Seq<char>) -> bool {
    p.len() <= s.len() && s.subrange(0, p.len() as int) == p
}

/// Whether `prefix` is a prefix of `s`, compared character by character.
fn starts_with(s: &str, prefix: &str) -> (res: bool)
    ensures
        res == is_prefix(prefix@, s@),
{
    let n: usize = prefix.unicode_len();
    let m: usize = s.unicode_len();
    if n > m {
        return false;
    }
    let mut i: usize = 0;
    while i < n
        invariant
            i <= n,
            n == prefix@.len(),
            n <= m,
            m == s@.len(),
            forall|j: int| 0 <= j < i ==> s@[j] == prefix@[j],
        decreases n - i,
    {
        if s.get_char(i) != prefix.get_char(i) {
            assert(s@.subrange(0, n as int)[i as int] != prefix@[i as int]);
            return false;
        }
        i = i + 1;
    }
    assert(s@.subrange(0, n as int) =~= prefix@);
    true
}

/// Reads the options from the command line `args`; `args[0]`, the program
/// name, is skipped.
pub fn parse_args(args: &Vec<String>) -> (res: CliOptions)
    ensures
        (res.dir_to_scan@, res.generate_png) == options_of(
            after_program_name(args@.map_values(|s: String| s@)),
        ),
{
    let ghost all = args@.map_values(|s: String| s@);
    let mut dir_to_scan = String::from_str("src");
    let mut generate_png = true;
    let png_flag = String::from_str("--png");
    let mut i: usize = 1;
    if args.len() == 0 {
        return CliOptions { dir_to_scan, generate_png };
    }
    assert(all.skip(1).take(0) =~= Seq::<Seq<char>>::empty());
    while i < args.len()
        invariant
            1 <= i <= args.len(),
            all == args@.map_values(|s: String| s@),
            png_flag@ == "--png"@,
            (dir_to_scan@, generate_png) == options_of(all.skip(1).take(i - 1)),
        decreases args.len() - i,
    {
        assert(all.skip(1).take(i as int).drop_last() =~= all.skip(1).take(i - 1));
        assert(all.skip(1).take(i as int).last() == args@[i as int]@);
        if args[i] == png_flag {
            generate_png = false;
        } else if !starts_with(args[i].as_str(), "--") {
            dir_to_scan = args[i].clone();
        }
        i = i + 1;
    }
    assert(all.skip(1).take(args.len() - 1) =~= all.skip(1));
    CliOptions { dir_to_scan, generate_png }
}

} // verus!
