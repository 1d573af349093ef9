//! Cargo's platform and cfg values, which decide which dependencies apply to a target.
use vstd::prelude::*;
use cargo_platform::{Cfg, ParseError, Platform};
use crate::text::chars_of;

verus! {

/// Cargo's platform of a dependency: a target name or a `cfg(..)` expression.
#[verifier::external_type_specification]
#[verifier::external_body]
pub struct ExPlatform(Platform);

/// One `cfg` value of a target, as `rustc --print=cfg` lists it.
#[verifier::external_type_specification]
#[verifier::external_body]
pub struct ExCfg(Cfg);

/// The error of a `cfg` value that does not parse.
#[verifier::external_type_specification]
#[verifier::external_body]
pub struct ExParseError(ParseError);

/// What `Cfg::from_str` makes of `line`: the `cfg` value, or nothing when the line is not one
/// (a function of the line alone).
pub uninterp spec fn parsed_cfg(line: Seq<char>) -> Option<Cfg>;

/// `Cfg::from_str` accepts `line`.
pub open spec fn cfg_parses(line: Seq<char>) -> bool {
    parsed_cfg(line) is Some
}

/// `Cfg::from_str` of `cargo_platform`: parses one `cfg` value such as `unix` or
/// `target_os = "linux"`. Claimed: the outcome is the one `parsed_cfg` names.
#[verifier::external_body]
pub fn parse_cfg(line: &str) -> (r: Result<Cfg, ParseError>)
    ensures
        match r {
            Ok(c) => parsed_cfg(line@) == Some(c),
            Err(_) => parsed_cfg(line@) is None,
        },
{
    line.parse::<Cfg>()
}

/// Whether `Platform::matches` accepts the target named `triple` with the `cfg` values `cfgs`
/// for a dependency restricted to `platform` (a function of its arguments alone).
pub uninterp spec fn platform_applies(platform: Platform, triple: Seq<char>, cfgs: Seq<Cfg>) -> bool;

/// `Platform::matches` of `cargo_platform`: whether a dependency restricted to `platform`
/// applies to the target named `triple` with the `cfg` values `cfgs`. Claimed: the answer is
/// the one `platform_applies` names.
#[verifier::external_body]
pub fn platform_matches(platform: &Platform, triple: &str, cfgs: &Vec<Cfg>) -> (r: bool)
    ensures
        r == platform_applies(*platform, triple@, cfgs@),
{
    platform.matches(triple, cfgs.as_slice())
}

/// `line` without one trailing carriage return.
pub open spec fn strip_cr(line: Seq<char>) -> Seq<char> {
    if line.len() > 0 && line.last() == '\r' {
        line.drop_last()
    } else {
        line
    }
}

/// The finished lines of `s`, and the unfinished last one, reading left to right.
pub open spec fn lines_state(s: Seq<char>) -> (Seq<Seq<char>>, Seq<char>)
    decreases s.len(),
{
    if s.len() == 0 {
        (Seq::empty(), Seq::empty())
    } else {
        let (done, cur) = lines_state(s.drop_last());
        if s.last() == '\n' {
            (done.push(strip_cr(cur)), Seq::empty())
        } else {
            (done, cur.push(s.last()))
        }
    }
}

/// The lines of `s`, as `str::lines` yields them: split at `\n`, a `\r` before it dropped,
/// and no empty line after a final `\n`.
pub open spec fn lines(s: Seq<char>) -> Seq<Seq<char>> {
    let (done, cur) = lines_state(s);
    if cur.len() > 0 {
        done.push(cur)
    } else {
        done
    }
}

/// Splits text into its lines (`str::lines`).
pub fn split_lines(s: &str) -> (r: Vec<String>)
    ensures
        crate::text::views(r@) == lines(s@),
{
    let cs = chars_of(s);
    let mut done: Vec<String> = Vec::new();
    let mut cur = String::new();
    let mut i: usize = 0;
    while i < cs.len()
        invariant
            cs@ == s@,
            i <= cs.len(),
            (crate::text::views(done@), cur@) == lines_state(s@.take(i as int)),
        decreases cs.len() - i,
    {
        let c = cs[i];
        assert(s@.take(i as int + 1).drop_last() =~= s@.take(i as int));
        if c == '\n' {
            let line = strip_cr_exec(&cur);
            let ghost before = done@;
            done.push(line);
            assert(crate::text::views(done@) =~= crate::text::views(before).push(strip_cr(cur@)));
            cur = String::new();
        } else {
            cur.push(c);
        }
        i = i + 1;
    }
    assert(s@.take(i as int) =~= s@);
    if !cur.as_str().is_empty() {
        let ghost before = done@;
        done.push(cur);
        assert(crate::text::views(done@) =~= crate::text::views(before).push(lines_state(s@).1));
    }
    done
}

fn strip_cr_exec(line: &String) -> (r: String)
    ensures
        r@ == strip_cr(line@),
{
    let cs = chars_of(line.as_str());
    let mut r = String::new();
    let n = if cs.len() > 0 && cs[cs.len() - 1] == '\r' {
        cs.len() - 1
    } else {
        cs.len()
    };
    let mut i: usize = 0;
    while i < n
        invariant
            cs@ == line@,
            n <= cs.len(),
            i <= n,
            r@ == cs@.take(i as int),
        decreases n - i,
    {
        r.push(cs[i]);
        assert(cs@.take(i as int + 1) =~= cs@.take(i as int).push(cs@[i as int]));
        i = i + 1;
    }
    assert(cs@.take(n as int) =~= strip_cr(line@));
    r
}

} // verus!
