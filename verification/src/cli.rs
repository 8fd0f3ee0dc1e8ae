//! The target version: given on the command line as `major.minor`, or, for
//! `auto`, read off the Django requirement in a project's `pyproject.toml`.

use crate::pattern::{
    captures_of, find_captures, group, group_at, groups_view, matches_ok, span_text, Groups, Span,
};
use crate::text::{chars_of, cut, str_eq};
use vstd::prelude::*;

verus! {

/// The arguments of the command line.
#[derive(Debug, Clone, PartialEq, Eq)]
pub struct Args {
    /// The files to format; `-` stands for the standard input.
    pub filenames: Vec<String>,
    /// `auto`, or the Django version to target as `major.minor`.
    pub target_version: String,
    /// Report the files that would change and write nothing.
    pub check: bool,
}

/// A Django version.
#[derive(Debug, Clone, Copy, PartialEq, Eq)]
pub struct Version {
    pub major: u8,
    pub minor: u8,
}

impl Version {
    pub fn new(major: u8, minor: u8) -> (v: Self)
        ensures
            v.major == major,
            v.minor == minor,
    {
        Self { major, minor }
    }

    pub fn as_tuple(&self) -> (t: (u8, u8))
        ensures
            t == (self.major, self.minor),
    {
        (self.major, self.minor)
    }
}

/// A Django requirement: the name, an optional list of extras, one of the
/// operators `==`, `~=` and `>=`, and a version of which group 1 is the major
/// and group 2 the minor number. What follows the minor number is not read.
pub const DJANGO_REQUIREMENT_PATTERN: &'static str =
    r"(?xi)
        ^django
        \s*
        (?:
            \[[^\]]+\]
            \s*
        )?
        (?:==|~=|>=)
        \s*
        (?P<major>[0-9]+)
        \.
        (?P<minor>[0-9]+)
        (?:
            (?:a|b|rc)
            [0-9]+
        |
            \.
            [0-9]+
        )?
        (?:
            \s*,\s*
            (?:<|<=)
            \s*
            [0-9]+
            (?:
                \.
                [0-9]+
                (?:
                    \.
                    [0-9]+
                )?
            )?
        )?
        ";

/// What `str::to_lowercase` makes of a string.
pub uninterp spec fn lowercase(s: Seq<char>) -> Seq<char>;

/// `str::to_lowercase`: the result is named [`lowercase`].
#[verifier::external_body]
fn to_lowercase(s: &str) -> (lower: String)
    ensures
        lower@ == lowercase(s@),
{
    s.to_lowercase()
}

/// What a TOML document holds in the array `key` of the table `table`: `None`
/// where the document does not parse or holds no such array, else the items
/// of the array in their order, each a string, or `None` for an item of
/// another kind.
pub uninterp spec fn toml_string_array(
    content: Seq<char>,
    table: Seq<char>,
    key: Seq<char>,
) -> Option<Seq<Option<Seq<char>>>>;

/// `toml::from_str` into a `toml::Value`, then `Value::get` for the table and
/// for the key, `Value::as_array`, and `Value::as_str` on every item. The
/// result is named [`toml_string_array`].
#[verifier::external_body]
fn string_array(content: &str, table: &str, key: &str) -> (found: Option<Vec<Option<String>>>)
    ensures
        found.deep_view() == toml_string_array(content@, table@, key@),
{
    match toml::from_str::<toml::Value>(content) {
        Ok(config) => match config.get(table).and_then(|t| t.get(key)).and_then(|a| a.as_array()) {
            Some(items) => Some(items.iter().map(|v| v.as_str().map(|s| s.to_string())).collect()),
            None => None,
        },
        Err(_) => None,
    }
}

/// The value of a decimal digit.
pub open spec fn digit_value(c: char) -> nat {
    (c as u32 - '0' as u32) as nat
}

/// Whether `c` is one of `0` to `9`.
pub open spec fn is_digit(c: char) -> bool {
    '0' as u32 <= c as u32 <= '9' as u32
}

/// Every character of `s` is a decimal digit.
pub open spec fn all_digits(s: Seq<char>) -> bool {
    forall|i: int| 0 <= i < s.len() ==> is_digit(#[trigger] s[i])
}

/// The number that the digits `s` write.
pub open spec fn decimal_value(s: Seq<char>) -> nat
    decreases s.len(),
{
    if s.len() == 0 {
        0
    } else {
        decimal_value(s.drop_last()) * 10 + digit_value(s.last())
    }
}

/// The number that `s` writes, as a `u8`: an optional `+`, then one or more
/// decimal digits whose value is at most 255. Anything else is no number.
pub open spec fn parse_u8_spec(s: Seq<char>) -> Option<u8> {
    let digits = if s.len() > 0 && s[0] == '+' {
        s.skip(1)
    } else {
        s
    };
    if digits.len() > 0 && all_digits(digits) && decimal_value(digits) <= 255 {
        Some(decimal_value(digits) as u8)
    } else {
        None
    }
}

/// The index of the first `.` in `s`; the length of `s` if it has none.
pub open spec fn first_dot(s: Seq<char>) -> nat
    decreases s.len(),
{
    if s.len() == 0 || s[0] == '.' {
        0
    } else {
        1 + first_dot(s.drop_first())
    }
}

/// The version that `major.minor` writes: two numbers with one `.` between
/// them.
pub open spec fn parse_version_string_spec(s: Seq<char>) -> Option<Version> {
    let dot = first_dot(s) as int;
    if dot < s.len() && first_dot(s.skip(dot + 1)) == s.skip(dot + 1).len() {
        match (parse_u8_spec(s.take(dot)), parse_u8_spec(s.skip(dot + 1))) {
            (Some(major), Some(minor)) => Some(Version { major, minor }),
            _ => None,
        }
    } else {
        None
    }
}

/// The versions that can be targeted.
pub open spec fn is_supported(v: Version) -> bool {
    (v.major == 2 && (v.minor == 1 || v.minor == 2)) || (v.major == 3 && v.minor <= 2) || (v.major
        == 4 && (v.minor == 1 || v.minor == 2)) || (v.major == 5 && v.minor <= 2)
}

/// The version that a requirement asks for, given the lowercased requirement
/// and the matches found in it: the major and minor number of the first
/// match, where it has both and both are numbers.
pub open spec fn requirement_version(lower: Seq<char>, ms: Seq<Seq<Option<Span>>>) -> Option<
    Version,
> {
    if ms.len() >= 1 {
        match (group_at(ms[0], 1), group_at(ms[0], 2)) {
            (Some(major), Some(minor)) => match (
                parse_u8_spec(span_text(lower, major)),
                parse_u8_spec(span_text(lower, minor)),
            ) {
                (Some(major), Some(minor)) => Some(Version { major, minor }),
                _ => None,
            },
            _ => None,
        }
    } else {
        None
    }
}

/// The Django version that a requirement asks for, if it is a requirement of
/// Django.
pub open spec fn parse_django_dependency_spec(dep: Seq<char>) -> Option<Version> {
    requirement_version(
        lowercase(dep),
        captures_of(DJANGO_REQUIREMENT_PATTERN@, lowercase(dep)),
    )
}

/// The supported version that one dependency asks for.
pub open spec fn supported_version(dep: Option<Seq<char>>) -> Option<Version> {
    match dep {
        Some(dep) => match parse_django_dependency_spec(dep) {
            Some(v) => if is_supported(v) {
                Some(v)
            } else {
                None
            },
            None => None,
        },
        None => None,
    }
}

/// The first supported Django version among the dependencies.
pub open spec fn first_supported(deps: Seq<Option<Seq<char>>>) -> Option<Version>
    decreases deps.len(),
{
    if deps.len() == 0 {
        None
    } else {
        match supported_version(deps[0]) {
            Some(v) => Some(v),
            None => first_supported(deps.drop_first()),
        }
    }
}

/// The version that the `pyproject.toml` with the given content targets: the
/// first supported Django version among `project.dependencies`.
pub open spec fn detect_version_spec(content: Seq<char>) -> Option<Version> {
    match toml_string_array(content, "project"@, "dependencies"@) {
        Some(deps) => first_supported(deps),
        None => None,
    }
}

/// The target version: the one written in `version_str`, or, for `auto`, the
/// one that the project's manifest targets, if there is a manifest.
pub open spec fn get_target_version_spec(
    version_str: Seq<char>,
    manifest: Option<Seq<char>>,
) -> Option<Version> {
    if version_str != "auto"@ {
        parse_version_string_spec(version_str)
    } else {
        match manifest {
            Some(content) => detect_version_spec(content),
            None => None,
        }
    }
}

proof fn lemma_decimal_bound(s: Seq<char>, k: int)
    requires
        0 <= k <= s.len(),
        decimal_value(s.take(k)) > 255,
        all_digits(s),
    ensures
        decimal_value(s) > 255,
    decreases s.len() - k,
{
    if k < s.len() {
        assert(s.take(k + 1).drop_last() =~= s.take(k));
        lemma_decimal_bound(s, k + 1);
    } else {
        assert(s.take(k) =~= s);
    }
}

/// Reads the characters `from..to` of `cs` as a `u8`.
pub fn parse_u8(cs: &Vec<char>, from: usize, to: usize) -> (r: Option<u8>)
    requires
        from <= to <= cs.len(),
    ensures
        r == parse_u8_spec(cs@.subrange(from as int, to as int)),
{
    let ghost s = cs@.subrange(from as int, to as int);
    let begin: usize = if from < to && cs[from] == '+' {
        from + 1
    } else {
        from
    };
    let ghost digits = cs@.subrange(begin as int, to as int);
    proof {
        if from < to && cs[from as int] == '+' {
            assert(s.skip(1) =~= digits);
        } else {
            assert(s =~= digits);
        }
    }
    if begin == to {
        return None;
    }
    let mut value: u16 = 0;
    let mut i: usize = begin;
    assert(digits.take(0) =~= Seq::empty());
    while i < to
        invariant
            from <= begin <= i <= to <= cs.len(),
            begin < to,
            digits == cs@.subrange(begin as int, to as int),
            s == cs@.subrange(from as int, to as int),
            digits == if s.len() > 0 && s[0] == '+' {
                s.skip(1)
            } else {
                s
            },
            value == decimal_value(digits.take(i - begin)),
            value <= 255,
            forall|j: int| 0 <= j < i - begin ==> is_digit(#[trigger] digits[j]),
        decreases to - i,
    {
        let c: char = cs[i];
        assert(digits[i - begin] == c);
        let code: u32 = c as u32;
        if code < '0' as u32 || code > '9' as u32 {
            assert(!is_digit(digits[i - begin]));
            return None;
        }
        let d: u16 = (code - '0' as u32) as u16;
        let next: u16 = value * 10 + d;
        proof {
            assert(digits.take(i - begin + 1).drop_last() =~= digits.take(i - begin));
            assert(digits.take(i - begin + 1).last() == c);
        }
        if next > 255 {
            proof {
                if all_digits(digits) {
                    lemma_decimal_bound(digits, i - begin + 1);
                }
            }
            return None;
        }
        value = next;
        i += 1;
    }
    assert(digits.take(to - begin) =~= digits);
    Some(value as u8)
}

fn find_dot(cs: &Vec<char>, from: usize) -> (at: usize)
    requires
        from <= cs.len(),
    ensures
        from <= at <= cs.len(),
        at - from == first_dot(cs@.skip(from as int)),
{
    let mut i: usize = from;
    let ghost s = cs@.skip(from as int);
    assert(s.skip(0) =~= s);
    while i < cs.len() && cs[i] != '.'
        invariant
            from <= i <= cs.len(),
            s == cs@.skip(from as int),
            first_dot(s) == (i - from) + first_dot(s.skip(i - from)),
        decreases cs.len() - i,
    {
        assert(s.skip(i - from).drop_first() =~= s.skip(i - from + 1));
        i += 1;
    }
    i
}

/// Reads a version written as `major.minor`.
pub fn parse_version_string(version_str: &str) -> (v: Option<Version>)
    ensures
        v == parse_version_string_spec(version_str@),
{
    let cs = chars_of(version_str);
    let n: usize = cs.len();
    assert(cs@.skip(0) =~= cs@);
    let dot = find_dot(&cs, 0);
    if dot >= n {
        return None;
    }
    let second = find_dot(&cs, dot + 1);
    if second != n {
        return None;
    }
    proof {
        assert(cs@.subrange(0, dot as int) =~= cs@.take(dot as int));
        assert(cs@.subrange(dot + 1, n as int) =~= cs@.skip(dot + 1));
    }
    match (parse_u8(&cs, 0, dot), parse_u8(&cs, dot + 1, n)) {
        (Some(major), Some(minor)) => Some(Version::new(major, minor)),
        _ => None,
    }
}

fn supported(v: &Version) -> (r: bool)
    ensures
        r == is_supported(*v),
{
    (v.major == 2 && (v.minor == 1 || v.minor == 2)) || (v.major == 3 && v.minor <= 2) || (v.major
        == 4 && (v.minor == 1 || v.minor == 2)) || (v.major == 5 && v.minor <= 2)
}

fn span_number(text: &str, sp: Span) -> (r: Option<u8>)
    requires
        crate::text::span_ok(text@, sp.0 as int, sp.1 as int),
    ensures
        r == parse_u8_spec(span_text(text@, sp)),
{
    let cs = chars_of(cut(text, sp.0, sp.1));
    assert(cs@.subrange(0, cs.len() as int) =~= cs@);
    parse_u8(&cs, 0, cs.len())
}

/// Reads the version off the matches found in a lowercased requirement.
pub fn dependency_version(lower: &str, ms: &Vec<Groups>) -> (v: Option<Version>)
    requires
        matches_ok(lower@, groups_view(ms@)),
    ensures
        v == requirement_version(lower@, groups_view(ms@)),
{
    if ms.len() == 0 {
        return None;
    }
    let m: &Groups = &ms[0];
    assert(groups_view(ms@)[0] == m@);
    match (group(m, 1), group(m, 2)) {
        (Some(major), Some(minor)) => {
            assert(groups_view(ms@)[0][1] == Some(major));
            assert(groups_view(ms@)[0][2] == Some(minor));
            match (span_number(lower, major), span_number(lower, minor)) {
                (Some(major), Some(minor)) => Some(Version::new(major, minor)),
                _ => None,
            }
        },
        _ => None,
    }
}

/// Reads the Django version that a requirement asks for.
pub fn parse_django_dependency(dep_str: &str) -> (v: Option<Version>)
    ensures
        v == parse_django_dependency_spec(dep_str@),
{
    let lower = to_lowercase(dep_str);
    let ms = find_captures(DJANGO_REQUIREMENT_PATTERN, lower.as_str());
    dependency_version(lower.as_str(), &ms)
}

/// The first supported Django version among the dependencies.
pub fn first_supported_version(deps: &Vec<Option<String>>) -> (v: Option<Version>)
    ensures
        v == first_supported(deps.deep_view()),
{
    let ghost all = deps.deep_view();
    let mut i: usize = 0;
    assert(all.skip(0) =~= all);
    while i < deps.len()
        invariant
            i <= deps.len(),
            all == deps.deep_view(),
            first_supported(all) == first_supported(all.skip(i as int)),
        decreases deps.len() - i,
    {
        proof {
            assert(all.skip(i as int).drop_first() =~= all.skip(i + 1));
            assert(all.skip(i as int)[0] == deps@[i as int].deep_view());
        }
        match &deps[i] {
            Some(dep) => match parse_django_dependency(dep.as_str()) {
                Some(v) => if supported(&v) {
                    return Some(v);
                },
                None => {},
            },
            None => {},
        }
        i += 1;
    }
    None
}

/// Reads the target version off the content of a `pyproject.toml`.
pub fn detect_version(content: &str) -> (v: Option<Version>)
    ensures
        v == detect_version_spec(content@),
{
    match string_array(content, "project", "dependencies") {
        Some(deps) => first_supported_version(&deps),
        None => None,
    }
}

/// The target version for `version_str`. For `auto` it is read off
/// `manifest`, the content of the project's `pyproject.toml`, where there is
/// one.
pub fn get_target_version(version_str: &str, manifest: Option<&str>) -> (v: Option<Version>)
    ensures
        v == get_target_version_spec(
            version_str@,
            match manifest {
                Some(content) => Some(content@),
                None => None,
            },
        ),
{
    if !str_eq(version_str, "auto") {
        return parse_version_string(version_str);
    }
    match manifest {
        Some(content) => detect_version(content),
        None => None,
    }
}

} // verus!
