//! Small helpers: turning results into options, and reading the `cfg` values rustc prints.
use vstd::prelude::*;
use cargo_platform::Cfg;
use crate::platform::{cfg_parses, lines, parse_cfg, parsed_cfg, split_lines};
use crate::text::views;

verus! {

/// Severity levels, most severe first.
pub enum LogLevel {
    Error,
    Warn,
    Info,
    Debug,
    Trace,
}

/// Keeps the value of a success and discards a failure.
pub trait OkButLog<T>: Sized {
    /// The value of a success, or nothing.
    spec fn success(self) -> Option<T>;

    /// The value of a success, or nothing; `level` is how severe a failure is.
    fn ok_but(self, level: LogLevel) -> (r: Option<T>)
        ensures
            r == self.success(),
    ;

    fn ok_but_error(self) -> (r: Option<T>)
        ensures
            r == self.success(),
    {
        self.ok_but(LogLevel::Error)
    }

    fn ok_but_warn(self) -> (r: Option<T>)
        ensures
            r == self.success(),
    {
        self.ok_but(LogLevel::Warn)
    }

    fn ok_but_info(self) -> (r: Option<T>)
        ensures
            r == self.success(),
    {
        self.ok_but(LogLevel::Info)
    }

    fn ok_but_debug(self) -> (r: Option<T>)
        ensures
            r == self.success(),
    {
        self.ok_but(LogLevel::Debug)
    }

    fn ok_but_trace(self) -> (r: Option<T>)
        ensures
            r == self.success(),
    {
        self.ok_but(LogLevel::Trace)
    }
}

impl<T, U> OkButLog<T> for Result<T, U> {
    open spec fn success(self) -> Option<T> {
        match self {
            Ok(t) => Some(t),
            Err(_) => None,
        }
    }

    fn ok_but(self, level: LogLevel) -> (r: Option<T>) {
        match self {
            Ok(t) => Some(t),
            Err(_) => None,
        }
    }
}

/// Every line of `output` is a `cfg` value.
pub open spec fn all_lines_parse(output: Seq<char>) -> bool {
    forall|i: int| 0 <= i < lines(output).len() ==> cfg_parses(#[trigger] lines(output)[i])
}

/// The `cfg` values of a target, one per line of what `rustc --print=cfg` printed.
pub fn parse_platform_attrs(rustc_output: &str) -> (r: Vec<Cfg>)
    requires
        all_lines_parse(rustc_output@),
    ensures
        r@.len() == lines(rustc_output@).len(),
        forall|i: int| 0 <= i < r@.len() ==> parsed_cfg(lines(rustc_output@)[i]) == Some(#[trigger] r@[i]),
{
    let ls = split_lines(rustc_output);
    let mut out: Vec<Cfg> = Vec::new();
    let mut i: usize = 0;
    while i < ls.len()
        invariant
            views(ls@) == lines(rustc_output@),
            all_lines_parse(rustc_output@),
            i <= ls.len(),
            out@.len() == i,
            forall|j: int| 0 <= j < i ==> parsed_cfg(lines(rustc_output@)[j]) == Some(#[trigger] out@[j]),
        decreases ls.len() - i,
    {
        assert(cfg_parses(views(ls@)[i as int]));
        assert(views(ls@)[i as int] == ls@[i as int]@);
        match parse_cfg(ls[i].as_str()) {
            Ok(cfg) => out.push(cfg),
            Err(_) => {
                assert(false);
            },
        }
        i = i + 1;
    }
    out
}

/// The `cfg` values of a target, or nothing when a line of the output is not a `cfg` value.
pub fn try_parse_platform_attrs(rustc_output: &str) -> (r: Option<Vec<Cfg>>)
    ensures
        r is Some <==> all_lines_parse(rustc_output@),
        r matches Some(v) ==> v@.len() == lines(rustc_output@).len() && forall|i: int|
            0 <= i < v@.len() ==> parsed_cfg(lines(rustc_output@)[i]) == Some(#[trigger] v@[i]),
{
    let ls = split_lines(rustc_output);
    let mut i: usize = 0;
    while i < ls.len()
        invariant
            views(ls@) == lines(rustc_output@),
            i <= ls.len(),
            forall|j: int| 0 <= j < i ==> cfg_parses(#[trigger] lines(rustc_output@)[j]),
        decreases ls.len() - i,
    {
        if parse_cfg(ls[i].as_str()).is_err() {
            assert(!cfg_parses(lines(rustc_output@)[i as int]));
            return None;
        }
        i = i + 1;
    }
    Some(parse_platform_attrs(rustc_output))
}

} // verus!
