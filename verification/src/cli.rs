//! Command-line argument scanning: pure logic over an argument vector.
//! Reading the real arguments and touching the file system stay with
//! the caller.

use vstd::prelude::*;
use vstd::string::StrSliceExecFns;
use crate::text::str_eq;

verus! {

/// The files the program should load, as settled from the arguments.
#[derive(Debug)]
pub struct Config {
    pub team_file: String,
    pub comp_file: String,
    pub using_defaults: bool,
}

/// Outcome of argument handling: exit (help shown or error reported),
/// or run with a configuration.
#[derive(Debug)]
pub enum ArgParseResult {
    Exit,
    Config(Config),
}

/// Whether some element of `v` equals `x`.
pub open spec fn has_str(v: Seq<String>, x: Seq<char>) -> bool {
    exists|k: int| 0 <= k < v.len() && v[k]@ == x
}

/// Whether `s` starts with `-`.
pub open spec fn dashed(s: Seq<char>) -> bool {
    s.len() > 0 && s[0] == '-'
}

/// The value `value_of` finds scanning from `i`: after a key, the next
/// argument is the value unless it is dashed or missing; a missing
/// value ends the scan.
pub open spec fn value_from(args: Seq<String>, keys: Seq<String>, i: int) -> Option<Seq<char>>
    decreases args.len() - i,
{
    if i < 0 || i >= args.len() {
        None
    } else if has_str(keys, args[i]@) {
        if i + 1 >= args.len() {
            None
        } else if dashed(args[i + 1]@) {
            value_from(args, keys, i + 1)
        } else {
            Some(args[i + 1]@)
        }
    } else {
        value_from(args, keys, i + 1)
    }
}

/// The first dashed argument from `i` on that is no known flag.
pub open spec fn unrecognized_from(args: Seq<String>, flags: Seq<String>, i: int) -> Option<
    Seq<char>,
>
    decreases args.len() - i,
{
    if i < 0 || i >= args.len() {
        None
    } else if dashed(args[i]@) && !has_str(flags, args[i]@) {
        Some(args[i]@)
    } else {
        unrecognized_from(args, flags, i + 1)
    }
}

/// Scans an argument vector against a set of accepted flags.
#[derive(Debug)]
pub struct ArgParser {
    pub args: Vec<String>,
    pub valid_flags: Vec<String>,
}

fn vec_has_str(v: &Vec<String>, x: &str) -> (r: bool)
    ensures
        r == has_str(v@, x@),
{
    let mut k: usize = 0;
    while k < v.len()
        invariant
            k <= v.len(),
            forall|q: int| 0 <= q < k ==> v@[q]@ != x@,
        decreases v.len() - k,
    {
        if str_eq(v[k].as_str(), x) {
            return true;
        }
        k = k + 1;
    }
    false
}

fn is_dashed(s: &str) -> (r: bool)
    ensures
        r == dashed(s@),
{
    s.unicode_len() > 0 && s.get_char(0) == '-'
}

impl ArgParser {
    pub fn new(args: Vec<String>, valid_flags: Vec<String>) -> (r: Self)
        ensures
            r.args@ == args@,
            r.valid_flags@ == valid_flags@,
    {
        ArgParser { args, valid_flags }
    }

    /// Whether `flag` occurs among the arguments.
    pub fn has_flag(&self, flag: &str) -> (r: bool)
        ensures
            r == has_str(self.args@, flag@),
    {
        vec_has_str(&self.args, flag)
    }

    /// The value following the first usable occurrence of one of
    /// `keys`: the next argument, unless it is dashed or missing.
    pub fn value_of(&self, keys: &Vec<String>) -> (r: Option<String>)
        ensures
            (match r {
                Some(v) => value_from(self.args@, keys@, 0) == Some(v@),
                None => value_from(self.args@, keys@, 0) is None,
            }),
    {
        let mut i: usize = 0;
        while i < self.args.len()
            invariant
                i <= self.args.len(),
                value_from(self.args@, keys@, 0) == value_from(self.args@, keys@, i as int),
            decreases self.args.len() - i,
        {
            if vec_has_str(keys, self.args[i].as_str()) {
                if i + 1 >= self.args.len() {
                    return None;
                }
                if !is_dashed(self.args[i + 1].as_str()) {
                    return Some(self.args[i + 1].clone());
                }
            }
            i = i + 1;
        }
        None
    }

    /// The first dashed argument that is not an accepted flag.
    pub fn check_unrecognized(&self) -> (r: Option<String>)
        ensures
            (match r {
                Some(v) => unrecognized_from(self.args@, self.valid_flags@, 0) == Some(v@),
                None => unrecognized_from(self.args@, self.valid_flags@, 0) is None,
            }),
    {
        let mut i: usize = 0;
        while i < self.args.len()
            invariant
                i <= self.args.len(),
                unrecognized_from(self.args@, self.valid_flags@, 0) == unrecognized_from(
                    self.args@,
                    self.valid_flags@,
                    i as int,
                ),
            decreases self.args.len() - i,
        {
            if is_dashed(self.args[i].as_str()) && !vec_has_str(
                &self.valid_flags,
                self.args[i].as_str(),
            ) {
                return Some(self.args[i].clone());
            }
            i = i + 1;
        }
        None
    }
}

} // verus!
