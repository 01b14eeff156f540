//! Application router: path patterns with `{name}` and `{name:regex}`
//! segments, compiled to regular expressions.
use regex::{Regex, RegexSet};
use vstd::prelude::*;

verus! {

/// Errors when building the URL of a named resource.
#[derive(Debug, Clone, Copy, PartialEq, Eq, Structural)]
pub enum UrlGenerationError {
    /// No resource has the name asked for.
    ResourceNotFound,
    /// Fewer elements were given than the pattern has variable segments.
    NotEnoughElements,
}

/// A piece of a path pattern: literal text, or a variable segment.
#[derive(Debug)]
pub enum PatternElement {
    /// Literal text.
    Str(String),
    /// A variable segment, by name.
    Var(String),
}

/// The value of a pattern element.
pub enum ElementView {
    /// Literal text.
    Str(Seq<char>),
    /// A variable segment, by name.
    Var(Seq<char>),
}

impl PatternElement {
    /// The value of this element.
    pub open spec fn view(&self) -> ElementView {
        match self {
            PatternElement::Str(s) => ElementView::Str(s@),
            PatternElement::Var(s) => ElementView::Var(s@),
        }
    }

    /// A copy of this element.
    pub fn copy(&self) -> (e: PatternElement)
        ensures
            e.view() == self.view(),
    {
        match self {
            PatternElement::Str(s) => PatternElement::Str(s.clone()),
            PatternElement::Var(s) => PatternElement::Var(s.clone()),
        }
    }
}

/// The values of a list of pattern elements.
pub open spec fn elements_view(v: Seq<PatternElement>) -> Seq<ElementView> {
    v.map_values(|e: PatternElement| e.view())
}

/// The state of the pattern parser after some characters.
pub struct ParseState {
    /// The regular expression built so far.
    pub re: Seq<char>,
    /// Literal text since the last variable segment.
    pub el: Seq<char>,
    /// Inside `{...}`.
    pub in_param: bool,
    /// Inside the custom regex part of `{name:regex}`.
    pub in_param_pattern: bool,
    /// Name of the variable segment being read.
    pub param_name: Seq<char>,
    /// Regex of the variable segment being read.
    pub param_pattern: Seq<char>,
    /// Elements completed so far.
    pub elems: Seq<ElementView>,
}

/// The regex a variable segment matches unless it gives its own: `[^/]+`.
pub open spec fn default_param_pattern() -> Seq<char> {
    seq!['[', '^', '/', ']', '+']
}

/// The parser state before any character, for a regex starting with `starts`.
pub open spec fn parse_init(starts: Seq<char>) -> ParseState {
    ParseState {
        re: starts,
        el: Seq::empty(),
        in_param: false,
        in_param_pattern: false,
        param_name: Seq::empty(),
        param_pattern: default_param_pattern(),
        elems: Seq::empty(),
    }
}

/// The named group `(?P<name>pattern)`.
pub open spec fn named_group(name: Seq<char>, pattern: Seq<char>) -> Seq<char> {
    seq!['(', '?', 'P', '<'] + name + seq!['>'] + pattern + seq![')']
}

/// One step of the pattern parser on the character `ch` at position `index`.
/// A leading `/` is skipped. Inside `{...}`: `}` closes the segment, adding a
/// named group to the regex; `:` starts the segment's own regex (dropping what
/// was read of it); a space is skipped at the start of that regex; any other
/// character extends the regex or the name. Outside: `{` opens a segment and
/// closes the literal text before it; any other character is literal.
pub open spec fn parse_step(st: ParseState, index: int, ch: char) -> ParseState {
    if index == 0 && ch == '/' {
        st
    } else if st.in_param {
        if ch == '}' {
            ParseState {
                re: st.re + named_group(st.param_name, st.param_pattern),
                elems: st.elems.push(ElementView::Var(st.param_name)),
                param_name: Seq::empty(),
                param_pattern: default_param_pattern(),
                in_param_pattern: false,
                in_param: false,
                ..st
            }
        } else if ch == ':' {
            ParseState { in_param_pattern: true, param_pattern: Seq::empty(), ..st }
        } else if st.in_param_pattern {
            if ch == ' ' && st.param_pattern.len() == 0 {
                st
            } else {
                ParseState { param_pattern: st.param_pattern.push(ch), ..st }
            }
        } else {
            ParseState { param_name: st.param_name.push(ch), ..st }
        }
    } else if ch == '{' {
        ParseState {
            in_param: true,
            elems: st.elems.push(ElementView::Str(st.el)),
            el: Seq::empty(),
            ..st
        }
    } else {
        ParseState { re: st.re.push(ch), el: st.el.push(ch), ..st }
    }
}

/// The parser state after the first `n` characters of `pattern`.
pub open spec fn parse_prefix(pattern: Seq<char>, starts: Seq<char>, n: nat) -> ParseState
    decreases n,
{
    if n == 0 {
        parse_init(starts)
    } else {
        let m = (n - 1) as nat;
        parse_step(parse_prefix(pattern, starts, m), m as int, pattern[m as int])
    }
}

/// The elements completed by the parser, followed by the literal text after
/// the last variable segment when there is any.
pub open spec fn closed_elements(st: ParseState) -> Seq<ElementView> {
    if st.el.len() > 0 {
        st.elems.push(ElementView::Str(st.el))
    } else {
        st.elems
    }
}

/// The regex and the elements of a path pattern: the parser's regex closed by
/// `$`, and its elements, the literal text after the last variable segment
/// being the last one.
pub open spec fn parse_spec(pattern: Seq<char>, starts: Seq<char>) -> (Seq<char>, Seq<
    ElementView,
>) {
    let st = parse_prefix(pattern, starts, pattern.len());
    (st.re.push('$'), closed_elements(st))
}

/// The path built from elements, with the values of the variable segments
/// taken in order from `vals`; `None` when there are fewer values than
/// variable segments.
pub open spec fn build_path(elems: Seq<ElementView>, vals: Seq<Seq<char>>, acc: Seq<char>) -> Option<
    Seq<char>,
>
    decreases elems.len(),
{
    if elems.len() == 0 {
        Some(acc)
    } else {
        match elems[0] {
            ElementView::Str(s) => build_path(elems.drop_first(), vals, acc + s),
            ElementView::Var(_) => if vals.len() == 0 {
                None
            } else {
                build_path(elems.drop_first(), vals.drop_first(), acc + vals[0])
            },
        }
    }
}

/// The value of an optional string slice.
pub open spec fn opt_str_view(s: Option<&str>) -> Option<Seq<char>> {
    match s {
        Some(p) => Some(p@),
        None => None,
    }
}

/// The values of a list of string slices.
pub open spec fn str_views(v: Seq<&str>) -> Seq<Seq<char>> {
    v.map_values(|s: &str| s@)
}

/// The start of a built path: the prefix followed by `/`, or nothing.
pub open spec fn path_start(prefix: Option<Seq<char>>) -> Seq<char> {
    match prefix {
        Some(p) => p.push('/'),
        None => Seq::empty(),
    }
}

/// Calls `iter().collect::<String>()` of std on a slice of characters: the
/// string of those characters.
#[verifier::external_body]
pub(crate) fn string_from_chars(chars: &[char]) -> (s: String)
    ensures
        s@ == chars@,
{
    chars.iter().collect()
}

/// The characters of a string slice.
pub fn str_chars(s: &str) -> (v: Vec<char>)
    ensures
        v@ == s@,
{
    let mut v: Vec<char> = Vec::new();
    for ch in it: s.chars()
        invariant
            v@ == it.seq().take(it.index() as int),
    {
        v.push(ch);
    }
    v
}

fn append_chars(dst: &mut Vec<char>, src: &Vec<char>)
    ensures
        final(dst)@ == old(dst)@ + src@,
{
    let mut i: usize = 0;
    while i < src.len()
        invariant
            i <= src@.len(),
            dst@ == old(dst)@ + src@.take(i as int),
        decreases src@.len() - i,
    {
        dst.push(src[i]);
        i += 1;
        assert(src@.take(i as int) =~= src@.take(i - 1).push(src@[i - 1]));
    }
    assert(src@.take(src@.len() as int) =~= src@);
}

fn chars_of_default_pattern() -> (v: Vec<char>)
    ensures
        v@ == default_param_pattern(),
{
    let v = vec!['[', '^', '/', ']', '+'];
    assert(v@ =~= default_param_pattern());
    v
}

/// Parses a path pattern: the regex that matches it (starting with `starts`
/// and anchored by `$`) and its elements.
pub fn parse(pattern: &str, starts: &str) -> (res: (String, Vec<PatternElement>))
    ensures
        res.0@ == parse_spec(pattern@, starts@).0,
        elements_view(res.1@) == parse_spec(pattern@, starts@).1,
{
    let chars = str_chars(pattern);
    let mut re = str_chars(starts);
    let mut el: Vec<char> = Vec::new();
    let mut in_param = false;
    let mut in_param_pattern = false;
    let mut param_name: Vec<char> = Vec::new();
    let mut param_pattern = chars_of_default_pattern();
    let mut elems: Vec<PatternElement> = Vec::new();
    let mut index: usize = 0;
    proof {
        assert(elements_view(elems@) =~= Seq::<ElementView>::empty());
    }
    while index < chars.len()
        invariant
            chars@ == pattern@,
            index <= chars@.len(),
            ({
                let st = parse_prefix(pattern@, starts@, index as nat);
                &&& re@ == st.re
                &&& el@ == st.el
                &&& in_param == st.in_param
                &&& in_param_pattern == st.in_param_pattern
                &&& param_name@ == st.param_name
                &&& param_pattern@ == st.param_pattern
                &&& elements_view(elems@) == st.elems
            }),
        decreases chars@.len() - index,
    {
        let ch = chars[index];
        let ghost st = parse_prefix(pattern@, starts@, index as nat);
        let ghost old_elems = elems@;
        if index == 0 && ch == '/' {
        } else if in_param {
            if ch == '}' {
                let name = string_from_chars(param_name.as_slice());
                elems.push(PatternElement::Var(name));
                re.push('(');
                re.push('?');
                re.push('P');
                re.push('<');
                append_chars(&mut re, &param_name);
                re.push('>');
                append_chars(&mut re, &param_pattern);
                re.push(')');
                param_name = Vec::new();
                param_pattern = chars_of_default_pattern();
                in_param_pattern = false;
                in_param = false;
                proof {
                    assert(re@ =~= st.re + named_group(st.param_name, st.param_pattern));
                    assert(elements_view(elems@) =~= elements_view(old_elems).push(
                        ElementView::Var(st.param_name),
                    ));
                    assert(param_name@ =~= Seq::<char>::empty());
                }
            } else if ch == ':' {
                in_param_pattern = true;
                param_pattern = Vec::new();
                assert(param_pattern@ =~= Seq::<char>::empty());
            } else if in_param_pattern {
                if !(ch == ' ' && param_pattern.len() == 0) {
                    param_pattern.push(ch);
                }
            } else {
                param_name.push(ch);
            }
        } else if ch == '{' {
            in_param = true;
            let text = string_from_chars(el.as_slice());
            elems.push(PatternElement::Str(text));
            el = Vec::new();
            proof {
                assert(elements_view(elems@) =~= elements_view(old_elems).push(
                    ElementView::Str(st.el),
                ));
                assert(el@ =~= Seq::<char>::empty());
            }
        } else {
            re.push(ch);
            el.push(ch);
        }
        index += 1;
    }
    re.push('$');
    if el.len() > 0 {
        let ghost before = elems@;
        let text = string_from_chars(el.as_slice());
        elems.push(PatternElement::Str(text));
        proof {
            assert(elements_view(elems@) =~= elements_view(before).push(ElementView::Str(el@)));
        }
    }
    (string_from_chars(re.as_slice()), elems)
}

fn push_str_chars(dst: &mut Vec<char>, s: &str)
    ensures
        final(dst)@ == old(dst)@ + s@,
{
    let v = str_chars(s);
    append_chars(dst, &v);
}

fn push_string_chars(dst: &mut Vec<char>, s: &String)
    ensures
        final(dst)@ == old(dst)@ + s@,
{
    push_str_chars(dst, s.as_str());
}

/// Builds a path from pattern elements: the prefix and `/` when there is a
/// prefix, then the literal text and, for each variable segment, the next of
/// `vals`.
pub fn build_path_from(
    elems: &Vec<PatternElement>,
    prefix: Option<&str>,
    vals: &[&str],
) -> (res: Result<String, UrlGenerationError>)
    ensures
        match build_path(
            elements_view(elems@),
            str_views(vals@),
            path_start(opt_str_view(prefix)),
        ) {
            Some(p) => res matches Ok(s) && s@ == p,
            None => res == Err::<String, UrlGenerationError>(UrlGenerationError::NotEnoughElements),
        },
{
    let ghost pre = opt_str_view(prefix);
    let ghost all_vals = str_views(vals@);
    let mut path: Vec<char> = Vec::new();
    if let Some(p) = prefix {
        push_str_chars(&mut path, p);
        path.push('/');
    }
    proof {
        assert(path@ =~= path_start(pre));
    }
    let mut i: usize = 0;
    let mut next: usize = 0;
    proof {
        assert(elements_view(elems@).skip(0) =~= elements_view(elems@));
        assert(all_vals.skip(0) =~= all_vals);
    }
    while i < elems.len()
        invariant
            i <= elems@.len(),
            next <= vals@.len(),
            all_vals == str_views(vals@),
            pre == opt_str_view(prefix),
            build_path(elements_view(elems@), all_vals, path_start(pre)) == build_path(
                elements_view(elems@).skip(i as int),
                all_vals.skip(next as int),
                path@,
            ),
        decreases elems@.len() - i,
    {
        let ghost ev = elements_view(elems@).skip(i as int);
        let ghost vs = all_vals.skip(next as int);
        proof {
            assert(ev[0] == elems@[i as int].view());
            assert(ev.drop_first() =~= elements_view(elems@).skip(i + 1));
        }
        match &elems[i] {
            PatternElement::Str(s) => {
                push_string_chars(&mut path, s);
            },
            PatternElement::Var(_) => {
                if next < vals.len() {
                    let v = vals[next];
                    proof {
                        assert(vs[0] == v@);
                        assert(vs.drop_first() =~= all_vals.skip(next + 1));
                    }
                    push_str_chars(&mut path, v);
                    next += 1;
                } else {
                    proof {
                        assert(vs.len() == 0);
                        assert(ev[0] matches ElementView::Var(_));
                        assert(build_path(ev, vs, path@) is None);
                        assert(build_path(elements_view(elems@), all_vals, path_start(pre)) is None);
                    }
                    return Err(UrlGenerationError::NotEnoughElements);
                }
            },
        }
        i += 1;
    }
    Ok(string_from_chars(path.as_slice()))
}


#[verifier::external_type_specification]
#[verifier::external_body]
pub struct ExRegex(Regex);

#[verifier::external_type_specification]
#[verifier::external_body]
pub struct ExRegexSet(RegexSet);

/// The pattern a compiled regex was built from (what `Regex::as_str` gives
/// back).
pub uninterp spec fn regex_source(re: Regex) -> Seq<char>;

/// The patterns a compiled regex set was built from, in order (what
/// `RegexSet::patterns` gives back).
pub uninterp spec fn regex_set_sources(set: RegexSet) -> Seq<Seq<char>>;

/// Whether `Regex::new` accepts a pattern.
pub uninterp spec fn spec_regex_compiles(src: Seq<char>) -> bool;

/// Whether `RegexSet::new` accepts a list of patterns.
pub uninterp spec fn spec_regex_set_compiles(srcs: Seq<Seq<char>>) -> bool;

/// The names of the capture groups of a pattern, one per group, in the order
/// of their opening parentheses (`None` for an unnamed group).
pub uninterp spec fn spec_group_names(src: Seq<char>) -> Seq<Option<Seq<char>>>;

/// The text each capture group of a pattern matches in `text` at the leftmost
/// match (`None` for a group that takes no part in it), or `None` when the
/// pattern matches nowhere in `text`.
pub uninterp spec fn spec_captures(src: Seq<char>, text: Seq<char>) -> Option<
    Seq<Option<Seq<char>>>,
>;

/// The values of a list of optional strings.
pub open spec fn opt_strings_view(v: Seq<Option<String>>) -> Seq<Option<Seq<char>>> {
    v.map_values(|o: Option<String>| match o {
        Some(s) => Some(s@),
        None => None,
    })
}

/// The values of a list of strings.
pub open spec fn strings_view(v: Seq<String>) -> Seq<Seq<char>> {
    v.map_values(|s: String| s@)
}

/// Calls `regex::Regex::new`. Claimed: it succeeds exactly when the pattern is
/// one that `spec_regex_compiles` names, and the regex it gives holds that
/// pattern (the crate's `as_str` returns it). Which patterns compile is not
/// stated.
#[verifier::external_body]
fn regex_new(src: &str) -> (r: Option<Regex>)
    ensures
        r is Some <==> spec_regex_compiles(src@),
        r matches Some(re) ==> regex_source(re) == src@,
{
    Regex::new(src).ok()
}

/// Calls `regex::Regex::capture_names`. Claimed: the names are those that
/// `spec_group_names` names for the regex's pattern; as the crate documents,
/// there is at least one group and the first one (the whole match) is
/// unnamed.
#[verifier::external_body]
fn regex_group_names(re: &Regex) -> (names: Vec<Option<String>>)
    ensures
        opt_strings_view(names@) == spec_group_names(regex_source(*re)),
        names@.len() >= 1,
        names@[0] is None,
{
    re.capture_names().map(|n| n.map(|n| n.to_owned())).collect()
}

/// Calls `regex::Regex::captures`. Claimed: the result is what
/// `spec_captures` names for the regex's pattern and the text, and, as the
/// crate documents, a match has one entry per capture group. Which texts
/// match is not stated.
#[verifier::external_body]
fn regex_captures(re: &Regex, text: &str) -> (caps: Option<Vec<Option<String>>>)
    ensures
        match caps {
            Some(g) => spec_captures(regex_source(*re), text@) == Some(opt_strings_view(g@))
                && g@.len() == spec_group_names(regex_source(*re)).len(),
            None => spec_captures(regex_source(*re), text@) is None,
        },
{
    re.captures(text).map(|c| c.iter().map(|m| m.map(|m| m.as_str().to_owned())).collect())
}

/// Calls `regex::RegexSet::new`. Claimed: it succeeds exactly when the list
/// is one that `spec_regex_set_compiles` names, and the set holds those
/// patterns in order (the crate's `patterns` returns them).
#[verifier::external_body]
fn regex_set_new(srcs: &Vec<String>) -> (r: Option<RegexSet>)
    ensures
        r is Some <==> spec_regex_set_compiles(strings_view(srcs@)),
        r matches Some(set) ==> regex_set_sources(set) == strings_view(srcs@),
{
    RegexSet::new(srcs).ok()
}

/// Calls `regex::RegexSet::matches` and takes the first index it yields.
/// Claimed, as the crate documents: the indices are those of the patterns
/// that match somewhere in the text, in ascending order; so the result is the
/// least index whose pattern has captures in the text, or `None` when no
/// pattern matches.
#[verifier::external_body]
fn regex_set_first_match(set: &RegexSet, text: &str) -> (r: Option<usize>)
    ensures
        match r {
            Some(i) => i < regex_set_sources(*set).len()
                && spec_captures(regex_set_sources(*set)[i as int], text@) is Some
                && forall|j: int|
                0 <= j < i ==> spec_captures(regex_set_sources(*set)[j], text@) is None,
            None => forall|j: int|
                0 <= j < regex_set_sources(*set).len() ==> spec_captures(
                    regex_set_sources(*set)[j],
                    text@,
                ) is None,
        },
{
    set.matches(text).into_iter().next()
}

/// The named groups among a list of group names, in order.
pub open spec fn named_only(names: Seq<Option<Seq<char>>>) -> Seq<Seq<char>>
    decreases names.len(),
{
    if names.len() == 0 {
        Seq::empty()
    } else {
        match names.last() {
            Some(n) => named_only(names.drop_last()).push(n),
            None => named_only(names.drop_last()),
        }
    }
}

/// The match info taken from capture groups: each group that takes part in
/// the match, except the first one, paired with the name at its rank among
/// the groups that take part (`idx` of them came before position `i`).
pub open spec fn match_info_from(
    names: Seq<Seq<char>>,
    groups: Seq<Option<Seq<char>>>,
    i: int,
    idx: nat,
) -> Seq<(Seq<char>, Seq<char>)>
    decreases groups.len() - i,
{
    if i < 0 || i >= groups.len() {
        Seq::empty()
    } else {
        match groups[i] {
            Some(m) => if idx != 0 {
                seq![(names[idx - 1], m)] + match_info_from(names, groups, i + 1, idx + 1)
            } else {
                match_info_from(names, groups, i + 1, idx + 1)
            },
            None => match_info_from(names, groups, i + 1, idx),
        }
    }
}

/// The number of groups that take part in a match.
pub open spec fn matched_count(groups: Seq<Option<Seq<char>>>) -> nat
    decreases groups.len(),
{
    if groups.len() == 0 {
        0
    } else {
        matched_count(groups.drop_last()) + if groups.last() is Some {
            1nat
        } else {
            0nat
        }
    }
}

/// Whether every group taking part in a match, after the first, has a name
/// to go with it.
pub open spec fn names_cover(names: Seq<Seq<char>>, caps: Option<Seq<Option<Seq<char>>>>) -> bool {
    names.len() == 0 || match caps {
        Some(g) => matched_count(g) <= names.len() + 1,
        None => true,
    }
}

/// The parameters a pattern extracts from a text.
pub open spec fn match_info(names: Seq<Seq<char>>, caps: Option<Seq<Option<Seq<char>>>>) -> Seq<
    (Seq<char>, Seq<char>),
> {
    if names.len() == 0 {
        Seq::empty()
    } else {
        match caps {
            Some(g) => match_info_from(names, g, 0, 0),
            None => Seq::empty(),
        }
    }
}

/// The values of a list of parameter pairs.
pub open spec fn pairs_view(v: Seq<(String, String)>) -> Seq<(Seq<char>, Seq<char>)> {
    v.map_values(|p: (String, String)| (p.0@, p.1@))
}

/// A path pattern of a resource, compiled to a regex.
pub struct Pattern {
    re: Regex,
    name: String,
    pattern: String,
    names: Vec<String>,
    elements: Vec<PatternElement>,
}

impl Pattern {
    /// The resource name.
    pub closed spec fn name_view(&self) -> Seq<char> {
        self.name@
    }

    /// The regex source.
    pub closed spec fn pattern_view(&self) -> Seq<char> {
        self.pattern@
    }

    /// The names of the variable segments, as the regex's named groups.
    pub closed spec fn names_view(&self) -> Seq<Seq<char>> {
        strings_view(self.names@)
    }

    /// The elements of the path pattern.
    pub closed spec fn elements(&self) -> Seq<ElementView> {
        elements_view(self.elements@)
    }

    /// The compiled regex holds the pattern, and the names are its named
    /// groups.
    pub closed spec fn wf(&self) -> bool {
        &&& regex_source(self.re) == self.pattern@
        &&& strings_view(self.names@) == named_only(spec_group_names(self.pattern@))
    }

    /// Parses a path pattern and compiles it. The regex must compile (a
    /// pattern that does not is a programming error); `try_new` checks.
    pub fn new(name: &str, path: &str, starts: &str) -> (p: Pattern)
        requires
            spec_regex_compiles(parse_spec(path@, starts@).0),
        ensures
            p.wf(),
            p.name_view() == name@,
            p.pattern_view() == parse_spec(path@, starts@).0,
            p.elements() == parse_spec(path@, starts@).1,
    {
        let (pattern, elements) = parse(path, starts);
        let re = regex_new(pattern.as_str()).unwrap();
        let all = regex_group_names(&re);
        let mut names: Vec<String> = Vec::new();
        let mut i: usize = 0;
        proof {
            assert(opt_strings_view(all@).take(0) =~= Seq::<Option<Seq<char>>>::empty());
            assert(strings_view(names@) =~= Seq::<Seq<char>>::empty());
        }
        while i < all.len()
            invariant
                i <= all@.len(),
                strings_view(names@) == named_only(opt_strings_view(all@).take(i as int)),
            decreases all@.len() - i,
        {
            let ghost before = names@;
            let ghost alls = opt_strings_view(all@);
            proof {
                assert(alls.take(i + 1).drop_last() =~= alls.take(i as int));
                assert(alls.take(i + 1).last() == alls[i as int]);
            }
            match &all[i] {
                Some(n) => {
                    names.push(n.clone());
                    assert(strings_view(names@) =~= strings_view(before).push(n@));
                },
                None => {},
            }
            i += 1;
        }
        proof {
            assert(opt_strings_view(all@).take(all@.len() as int) =~= opt_strings_view(all@));
        }
        Pattern { re, name: name.to_owned(), pattern, names, elements }
    }

    /// Like `new`, but `None` where the regex does not compile.
    pub fn try_new(name: &str, path: &str, starts: &str) -> (p: Option<Pattern>)
        ensures
            p is Some <==> spec_regex_compiles(parse_spec(path@, starts@).0),
            p matches Some(p) ==> {
                &&& p.wf()
                &&& p.name_view() == name@
                &&& p.pattern_view() == parse_spec(path@, starts@).0
                &&& p.elements() == parse_spec(path@, starts@).1
            },
    {
        let (pattern, _) = parse(path, starts);
        if regex_new(pattern.as_str()).is_some() {
            Some(Pattern::new(name, path, starts))
        } else {
            None
        }
    }

    /// Returns name of the pattern.
    pub fn name(&self) -> (s: &str)
        ensures
            s@ == self.name_view(),
    {
        self.name.as_str()
    }

    /// Returns path of the pattern.
    pub fn pattern(&self) -> (s: &str)
        ensures
            s@ == self.pattern_view(),
    {
        self.pattern.as_str()
    }

    /// Whether the groups of a match of the pattern in `text` all have names
    /// to go with them, which `get_match_info` needs.
    pub open spec fn match_info_defined(&self, text: Seq<char>) -> bool {
        names_cover(self.names_view(), spec_captures(self.pattern_view(), text))
    }

    /// Extracts the pattern's parameters from the text: each named segment
    /// with the text it matched.
    pub fn get_match_info(&self, text: &str) -> (info: Vec<(String, String)>)
        requires
            self.wf(),
            self.match_info_defined(text@),
        ensures
            pairs_view(info@) == match_info(
                self.names_view(),
                spec_captures(self.pattern_view(), text@),
            ),
    {
        let mut info: Vec<(String, String)> = Vec::new();
        proof {
            assert(pairs_view(info@) =~= Seq::<(Seq<char>, Seq<char>)>::empty());
        }
        if self.names.len() > 0 {
            if let Some(groups) = regex_captures(&self.re, text) {
                let ghost names = self.names_view();
                let ghost gs = opt_strings_view(groups@);
                let mut i: usize = 0;
                let mut idx: usize = 0;
                proof {
                    lemma_matched_count_take(gs, 0);
                    assert(gs.take(0) =~= Seq::<Option<Seq<char>>>::empty());
                }
                while i < groups.len()
                    invariant
                        i <= groups@.len(),
                        gs == opt_strings_view(groups@),
                        names == strings_view(self.names@),
                        matched_count(gs) <= names.len() + 1,
                        idx == matched_count(gs.take(i as int)),
                        idx <= i,
                        pairs_view(info@) + match_info_from(names, gs, i as int, idx as nat)
                            == match_info_from(names, gs, 0, 0),
                    decreases groups@.len() - i,
                {
                    proof {
                        lemma_matched_count_take(gs, i + 1);
                        assert(gs.take(i + 1).drop_last() =~= gs.take(i as int));
                    }
                    match &groups[i] {
                        Some(m) => {
                            if idx != 0 {
                                let ghost before = info@;
                                info.push((self.names[idx - 1].clone(), m.clone()));
                                proof {
                                    assert(pairs_view(info@) =~= pairs_view(before).push(
                                        (names[idx - 1], m@),
                                    ));
                                    assert(pairs_view(info@) + match_info_from(
                                        names,
                                        gs,
                                        i + 1,
                                        (idx + 1) as nat,
                                    ) =~= pairs_view(before) + (seq![(names[idx - 1], m@)]
                                        + match_info_from(names, gs, i + 1, (idx + 1) as nat)));
                                }
                            }
                            idx += 1;
                        },
                        None => {},
                    }
                    i += 1;
                }
                proof {
                    assert(pairs_view(info@) + Seq::<(Seq<char>, Seq<char>)>::empty() =~= pairs_view(
                        info@,
                    ));
                }
            }
        }
        info
    }

    /// Like `get_match_info`, but `None` where a group of the match has no
    /// name to go with it.
    pub fn get_match_info_checked(&self, text: &str) -> (info: Option<Vec<(String, String)>>)
        requires
            self.wf(),
        ensures
            info is Some <==> self.match_info_defined(text@),
            info matches Some(v) ==> pairs_view(v@) == match_info(
                self.names_view(),
                spec_captures(self.pattern_view(), text@),
            ),
    {
        if self.names.len() == 0 {
            return Some(self.get_match_info(text));
        }
        match regex_captures(&self.re, text) {
            None => Some(self.get_match_info(text)),
            Some(groups) => {
                let n = count_matched(&groups);
                if n == 0 || n - 1 <= self.names.len() {
                    Some(self.get_match_info(text))
                } else {
                    None
                }
            },
        }
    }

    /// Builds the path of the pattern with the given values of its variable
    /// segments, after `prefix` and `/` when there is a prefix.
    pub fn path(&self, prefix: Option<&str>, elements: &[&str]) -> (res: Result<
        String,
        UrlGenerationError,
    >)
        ensures
            match build_path(self.elements(), str_views(elements@), path_start(opt_str_view(prefix))) {
                Some(p) => res matches Ok(s) && s@ == p,
                None => res == Err::<String, UrlGenerationError>(
                    UrlGenerationError::NotEnoughElements,
                ),
            },
    {
        build_path_from(&self.elements, prefix, elements)
    }

    /// A copy of the pattern's elements.
    fn copy_elements(&self) -> (v: Vec<PatternElement>)
        ensures
            elements_view(v@) == self.elements(),
    {
        let mut v: Vec<PatternElement> = Vec::new();
        let mut i: usize = 0;
        while i < self.elements.len()
            invariant
                i <= self.elements@.len(),
                elements_view(v@) == elements_view(self.elements@).take(i as int),
            decreases self.elements@.len() - i,
        {
            let ghost before = v@;
            let e = self.elements[i].copy();
            v.push(e);
            proof {
                assert(elements_view(v@) =~= elements_view(before).push(e.view()));
            }
            i += 1;
            assert(elements_view(v@) =~= elements_view(self.elements@).take(i as int));
        }
        assert(elements_view(self.elements@).take(i as int) =~= elements_view(self.elements@));
        v
    }
}

/// The number of groups taking part in a match, counted.
fn count_matched(groups: &Vec<Option<String>>) -> (n: usize)
    ensures
        n == matched_count(opt_strings_view(groups@)),
{
    let ghost gs = opt_strings_view(groups@);
    let mut n: usize = 0;
    let mut i: usize = 0;
    proof {
        lemma_matched_count_take(gs, 0);
    }
    while i < groups.len()
        invariant
            i <= groups@.len(),
            gs == opt_strings_view(groups@),
            n == matched_count(gs.take(i as int)),
            n <= i,
        decreases groups@.len() - i,
    {
        proof {
            assert(gs.take(i + 1).drop_last() =~= gs.take(i as int));
        }
        if groups[i].is_some() {
            n += 1;
        }
        i += 1;
    }
    assert(gs.take(i as int) =~= gs);
    n
}

/// Groups counted among the first `k` are no more than all that take part.
proof fn lemma_matched_count_take(gs: Seq<Option<Seq<char>>>, k: int)
    requires
        0 <= k <= gs.len(),
    ensures
        matched_count(gs.take(k)) <= matched_count(gs),
        k == 0 ==> matched_count(gs.take(k)) == 0,
    decreases gs.len() - k,
{
    if k == 0 {
        assert(gs.take(0) =~= Seq::<Option<Seq<char>>>::empty());
    }
    if k < gs.len() {
        lemma_matched_count_take(gs, k + 1);
        assert(gs.take(k + 1).drop_last() =~= gs.take(k));
    } else {
        assert(gs.take(k) =~= gs);
    }
}


/// The result of `str::trim` of std on a string: the string without its
/// leading and trailing whitespace.
pub uninterp spec fn spec_trim(s: Seq<char>) -> Seq<char>;

/// Calls `str::trim` of std. Claimed: the result is what `spec_trim` names for
/// the string. Which characters count as whitespace is not stated.
#[verifier::external_body]
fn str_trim(s: &str) -> (t: &str)
    ensures
        t@ == spec_trim(s@),
{
    s.trim()
}

/// A string without the `/` characters at its end.
pub open spec fn strip_trailing_slashes(s: Seq<char>) -> Seq<char>
    decreases s.len(),
{
    if s.len() > 0 && s.last() == '/' {
        strip_trailing_slashes(s.drop_last())
    } else {
        s
    }
}

/// The patterns of the entries that come with a resource, in order.
pub open spec fn routed_patterns<R>(map: Seq<(Pattern, Option<R>)>) -> Seq<Pattern>
    decreases map.len(),
{
    if map.len() == 0 {
        Seq::empty()
    } else if map.last().1 is Some {
        routed_patterns(map.drop_last()).push(map.last().0)
    } else {
        routed_patterns(map.drop_last())
    }
}

/// The resources of the entries, in order.
pub open spec fn routed_resources<R>(map: Seq<(Pattern, Option<R>)>) -> Seq<R>
    decreases map.len(),
{
    if map.len() == 0 {
        Seq::empty()
    } else {
        match map.last().1 {
            Some(r) => routed_resources(map.drop_last()).push(r),
            None => routed_resources(map.drop_last()),
        }
    }
}

/// The named entries: name, elements, and whether the entry has no resource
/// (an external resource, whose path is built without the prefix).
pub open spec fn named_entries<R>(map: Seq<(Pattern, Option<R>)>) -> Seq<
    (Seq<char>, Seq<ElementView>, bool),
>
    decreases map.len(),
{
    if map.len() == 0 {
        Seq::empty()
    } else if map.last().0.name_view().len() > 0 {
        named_entries(map.drop_last()).push(
            (map.last().0.name_view(), map.last().0.elements(), map.last().1 is None),
        )
    } else {
        named_entries(map.drop_last())
    }
}

/// The regex sources of a list of patterns.
pub open spec fn pattern_sources(ps: Seq<Pattern>) -> Seq<Seq<char>> {
    ps.map_values(|p: Pattern| p.pattern_view())
}

/// `i` is the least index of a source that matches somewhere in `text`.
pub open spec fn is_first_match(sources: Seq<Seq<char>>, text: Seq<char>, i: int) -> bool {
    &&& 0 <= i < sources.len()
    &&& spec_captures(sources[i], text) is Some
    &&& forall|j: int| 0 <= j < i ==> spec_captures(sources[j], text) is None
}

/// No source matches anywhere in `text`.
pub open spec fn no_match(sources: Seq<Seq<char>>, text: Seq<char>) -> bool {
    forall|j: int| 0 <= j < sources.len() ==> spec_captures(sources[j], text) is None
}

/// The text routes are matched against: the path, or `/` for an empty path.
pub open spec fn route_target(path: Seq<char>) -> Seq<char> {
    if path.len() == 0 {
        seq!['/']
    } else {
        path
    }
}

/// The characters of a string after its first `n` bytes.
pub open spec fn chars_after_bytes(s: Seq<char>, n: nat) -> Seq<char> {
    vstd::utf8::decode_utf8(vstd::utf8::encode_utf8(s).skip(n as int))
}

/// The values of the named entries of a router.
pub open spec fn named_view(v: Seq<(String, Vec<PatternElement>, bool)>) -> Seq<
    (Seq<char>, Seq<ElementView>, bool),
> {
    v.map_values(|e: (String, Vec<PatternElement>, bool)| (e.0@, elements_view(e.1@), e.2))
}

/// Interface for application router.
pub struct Router<S> {
    prefix: String,
    prefix_len: usize,
    regset: RegexSet,
    named: Vec<(String, Vec<PatternElement>, bool)>,
    patterns: Vec<Pattern>,
    srv: S,
}

impl<S> Router<S> {
    /// The router's prefix.
    pub closed spec fn prefix_view(&self) -> Seq<char> {
        self.prefix@
    }

    /// The patterns routed to resources, by index.
    pub closed spec fn patterns(&self) -> Seq<Pattern> {
        self.patterns@
    }

    /// The named entries, in order; the last one with a name wins.
    pub closed spec fn named(&self) -> Seq<(Seq<char>, Seq<ElementView>, bool)> {
        named_view(self.named@)
    }

    /// The server settings.
    pub closed spec fn settings(&self) -> S {
        self.srv
    }

    /// The prefix length in bytes agrees with the prefix, the set holds the
    /// patterns' regexes, and every pattern is well formed.
    pub closed spec fn wf(&self) -> bool {
        &&& self.prefix_len == vstd::utf8::encode_utf8(self.prefix@).len()
        &&& regex_set_sources(self.regset) == pattern_sources(self.patterns@)
        &&& forall|i: int| 0 <= i < self.patterns@.len() ==> #[trigger] self.patterns@[i].wf()
    }

    /// Creates a router: the prefix is trimmed of whitespace and of trailing
    /// `/`; entries with a resource are routed, in order; entries with a name
    /// can be used to build paths. The regex set of the routed patterns must
    /// compile (patterns that do not are a programming error); `try_new`
    /// checks.
    pub fn new<R>(prefix: &str, settings: S, map: Vec<(Pattern, Option<R>)>) -> (res: (
        Router<S>,
        Vec<R>,
    ))
        requires
            forall|i: int| 0 <= i < map@.len() ==> (#[trigger] map@[i]).0.wf(),
            spec_regex_set_compiles(pattern_sources(routed_patterns(map@))),
        ensures
            res.0.wf(),
            res.0.prefix_view() == strip_trailing_slashes(spec_trim(prefix@)),
            res.0.patterns() == routed_patterns(map@),
            res.1@ == routed_resources(map@),
            res.0.named() == named_entries(map@),
            res.0.settings() == settings,
    {
        let pre = router_prefix(prefix);
        let ghost whole = map@;
        let mut named: Vec<(String, Vec<PatternElement>, bool)> = Vec::new();
        let mut patterns: Vec<Pattern> = Vec::new();
        let mut resources: Vec<R> = Vec::new();
        let mut paths: Vec<String> = Vec::new();
        let mut map = map;
        let mut rev: Vec<(Pattern, Option<R>)> = Vec::new();
        // take the entries out in order
        while map.len() > 0
            invariant
                whole == map@ + rev@.reverse(),
            decreases map@.len(),
        {
            let e = map.pop().unwrap();
            rev.push(e);
            proof {
                assert(whole =~= map@ + rev@.reverse());
            }
        }
        proof {
            assert(rev@.reverse() =~= whole);
        }
        let n = rev.len();
        let mut k: usize = 0;
        proof {
            assert(whole.take(0) =~= Seq::<(Pattern, Option<R>)>::empty());
        }
        while rev.len() > 0
            invariant
                k + rev@.len() == n,
                n == whole.len(),
                forall|i: int| 0 <= i < rev@.len() ==> rev@[i] == whole[n - 1 - i],
                forall|i: int| 0 <= i < whole.len() ==> (#[trigger] whole[i]).0.wf(),
                patterns@ == routed_patterns(whole.take(k as int)),
                resources@ == routed_resources(whole.take(k as int)),
                strings_view(paths@) == pattern_sources(patterns@),
                named_view(named@) == named_entries(whole.take(k as int)),
                forall|i: int| 0 <= i < patterns@.len() ==> #[trigger] patterns@[i].wf(),
            decreases rev@.len(),
        {
            let (pattern, resource) = rev.pop().unwrap();
            let ghost before = whole.take(k as int);
            proof {
                assert(whole.take(k + 1) =~= before.push(whole[k as int]));
                assert(whole.take(k + 1).drop_last() =~= before);
                assert(whole[k as int] == (pattern, resource));
            }
            let ghost named0 = named@;
            let ghost patterns0 = patterns@;
            let ghost paths0 = paths@;
            if !pattern.name.as_str().is_empty() {
                let elems = pattern.copy_elements();
                let ext = resource.is_none();
                named.push((pattern.name.clone(), elems, ext));
                proof {
                    assert(named_view(named@) =~= named_view(named0).push(
                        (pattern.name_view(), pattern.elements(), resource is None),
                    ));
                }
            }
            match resource {
                Some(r) => {
                    paths.push(pattern.pattern.clone());
                    patterns.push(pattern);
                    resources.push(r);
                    proof {
                        assert(strings_view(paths@) =~= strings_view(paths0).push(
                            patterns@.last().pattern_view(),
                        ));
                        assert(pattern_sources(patterns@) =~= pattern_sources(patterns0).push(
                            patterns@.last().pattern_view(),
                        ));
                    }
                },
                None => {},
            }
            k += 1;
        }
        proof {
            assert(whole.take(n as int) =~= whole);
        }
        let regset = regex_set_new(&paths).unwrap();
        let prefix_len = pre.as_str().as_bytes().len();
        proof {
            assert(patterns@ == routed_patterns(whole));
            assert(regex_set_sources(regset) == pattern_sources(patterns@));
            assert(prefix_len == vstd::utf8::encode_utf8(pre@).len());
        }
        (Router { prefix: pre, prefix_len, regset, named, patterns, srv: settings }, resources)
    }

    /// Like `new`, but `None` where the regex set of the routed patterns does
    /// not compile.
    pub fn try_new<R>(prefix: &str, settings: S, map: Vec<(Pattern, Option<R>)>) -> (res: Option<
        (Router<S>, Vec<R>),
    >)
        requires
            forall|i: int| 0 <= i < map@.len() ==> (#[trigger] map@[i]).0.wf(),
        ensures
            res is Some <==> spec_regex_set_compiles(pattern_sources(routed_patterns(map@))),
            res matches Some(res) ==> {
                &&& res.0.wf()
                &&& res.0.prefix_view() == strip_trailing_slashes(spec_trim(prefix@))
                &&& res.0.patterns() == routed_patterns(map@)
                &&& res.1@ == routed_resources(map@)
                &&& res.0.named() == named_entries(map@)
                &&& res.0.settings() == settings
            },
    {
        let paths = routed_sources(&map);
        if regex_set_new(&paths).is_some() {
            Some(Router::new(prefix, settings, map))
        } else {
            None
        }
    }

    /// Router prefix.
    pub fn prefix(&self) -> (s: &str)
        ensures
            s@ == self.prefix_view(),
    {
        self.prefix.as_str()
    }

    /// Server settings.
    pub fn server_settings(&self) -> (s: &S)
        ensures
            *s == self.settings(),
    {
        &self.srv
    }

    /// Whether the route that a path matches can hand out its parameters:
    /// every group of the match has a name to go with it.
    pub open spec fn recognize_defined(&self, path: Seq<char>) -> bool {
        let plen = vstd::utf8::encode_utf8(self.prefix_view()).len();
        let rest = chars_after_bytes(path, plen);
        plen <= vstd::utf8::encode_utf8(path).len() ==> forall|i: int|
            is_first_match(pattern_sources(self.patterns()), route_target(rest), i)
                ==> #[trigger] self.patterns()[i].match_info_defined(rest)
    }

    /// Query for matched resource: the prefix is cut off the path, the first
    /// routed pattern that matches what is left (`/` when nothing is left)
    /// gives the resource's index, and that pattern's parameters are taken
    /// from what is left.
    pub fn recognize(&self, path: &str) -> (r: Option<(usize, Vec<(String, String)>)>)
        requires
            self.wf(),
            vstd::utf8::encode_utf8(self.prefix_view()).len() > vstd::utf8::encode_utf8(path@).len()
                || vstd::utf8::is_char_boundary(
                vstd::utf8::encode_utf8(path@),
                vstd::utf8::encode_utf8(self.prefix_view()).len() as int,
            ),
            self.recognize_defined(path@),
        ensures
            ({
                let plen = vstd::utf8::encode_utf8(self.prefix_view()).len();
                let rest = chars_after_bytes(path@, plen);
                let sources = pattern_sources(self.patterns());
                if plen > vstd::utf8::encode_utf8(path@).len() {
                    r is None
                } else {
                    match r {
                        Some((i, info)) => is_first_match(sources, route_target(rest), i as int)
                            && pairs_view(info@) == match_info(
                            self.patterns()[i as int].names_view(),
                            spec_captures(sources[i as int], rest),
                        ),
                        None => no_match(sources, route_target(rest)),
                    }
                }
            }),
    {
        if self.prefix_len > path.as_bytes().len() {
            assert(vstd::utf8::encode_utf8(self.prefix_view()).len() > vstd::utf8::encode_utf8(path@).len());
            return None;
        }
        let (_, rest) = path.split_at(self.prefix_len);
        proof {
            vstd::utf8::encode_utf8_decode_utf8(rest@);
            assert(rest@ == chars_after_bytes(path@, self.prefix_len as nat));
        }
        let found = if rest.is_empty() {
            let slash = "/";
            proof {
                reveal_strlit("/");
            }
            assert(slash@ =~= route_target(rest@));
            regex_set_first_match(&self.regset, slash)
        } else {
            regex_set_first_match(&self.regset, rest)
        };
        match found {
            Some(i) => {
                let info = self.patterns[i].get_match_info(rest);
                Some((i, info))
            },
            None => None,
        }
    }

    /// Like `recognize`, but `None` where a group of the match has no name to
    /// go with it.
    pub fn recognize_checked(&self, path: &str) -> (r: Option<Option<(usize, Vec<(String, String)>)>>)
        requires
            self.wf(),
            vstd::utf8::encode_utf8(self.prefix_view()).len() > vstd::utf8::encode_utf8(path@).len()
                || vstd::utf8::is_char_boundary(
                vstd::utf8::encode_utf8(path@),
                vstd::utf8::encode_utf8(self.prefix_view()).len() as int,
            ),
        ensures
            r is Some <==> self.recognize_defined(path@),
            r matches Some(found) ==> ({
                let plen = vstd::utf8::encode_utf8(self.prefix_view()).len();
                let rest = chars_after_bytes(path@, plen);
                let sources = pattern_sources(self.patterns());
                if plen > vstd::utf8::encode_utf8(path@).len() {
                    found is None
                } else {
                    match found {
                        Some((i, info)) => is_first_match(sources, route_target(rest), i as int)
                            && pairs_view(info@) == match_info(
                            self.patterns()[i as int].names_view(),
                            spec_captures(sources[i as int], rest),
                        ),
                        None => no_match(sources, route_target(rest)),
                    }
                }
            }),
    {
        if self.prefix_len <= path.as_bytes().len() {
            let (_, rest) = path.split_at(self.prefix_len);
            proof {
                vstd::utf8::encode_utf8_decode_utf8(rest@);
                assert(rest@ == chars_after_bytes(path@, self.prefix_len as nat));
            }
            let found = if rest.is_empty() {
                let slash = "/";
                proof {
                    reveal_strlit("/");
                }
                assert(slash@ =~= route_target(rest@));
                regex_set_first_match(&self.regset, slash)
            } else {
                regex_set_first_match(&self.regset, rest)
            };
            if let Some(i) = found {
                let p = &self.patterns[i];
                assert(p.wf());
                if p.names.len() > 0 {
                    if let Some(groups) = regex_captures(&p.re, rest) {
                        let n = count_matched(&groups);
                        if !(n == 0 || n - 1 <= p.names.len()) {
                            proof {
                                assert(is_first_match(
                                    pattern_sources(self.patterns()),
                                    route_target(rest@),
                                    i as int,
                                ));
                                assert(!self.patterns()[i as int].match_info_defined(rest@));
                            }
                            return None;
                        }
                    }
                }
                proof {
                    assert(self.patterns()[i as int].match_info_defined(rest@));
                    assert forall|j: int|
                        is_first_match(
                            pattern_sources(self.patterns()),
                            route_target(rest@),
                            j,
                        ) implies #[trigger] self.patterns()[j].match_info_defined(rest@) by {
                        if j < i {
                        } else if j > i {
                            assert(spec_captures(pattern_sources(self.patterns())[i as int], route_target(rest@)) is None);
                        }
                    }
                }
            } else {
                proof {
                    assert forall|j: int|
                        is_first_match(
                            pattern_sources(self.patterns()),
                            route_target(rest@),
                            j,
                        ) implies #[trigger] self.patterns()[j].match_info_defined(rest@) by {
                        assert(spec_captures(pattern_sources(self.patterns())[j], route_target(rest@)) is None);
                    }
                }
            }
        }
        Some(self.recognize(path))
    }

    /// Check if application contains matching route. The prefix is not taken
    /// into account.
    pub fn has_route(&self, path: &str) -> (b: bool)
        requires
            self.wf(),
        ensures
            b == !no_match(pattern_sources(self.patterns()), route_target(path@)),
    {
        let found = if path.is_empty() {
            let slash = "/";
            proof {
                reveal_strlit("/");
            }
            assert(slash@ =~= route_target(path@));
            regex_set_first_match(&self.regset, slash)
        } else {
            regex_set_first_match(&self.regset, path)
        };
        found.is_some()
    }

    /// Builds the path of a named resource: with the prefix for a routed
    /// resource, without it for an external one.
    pub fn resource_path(&self, name: &str, elements: &[&str]) -> (res: Result<
        String,
        UrlGenerationError,
    >)
        ensures
            match last_named(self.named(), name@) {
                Some(k) => {
                    let e = self.named()[k];
                    let start = if e.2 {
                        path_start(None)
                    } else {
                        path_start(Some(self.prefix_view()))
                    };
                    match build_path(e.1, str_views(elements@), start) {
                        Some(p) => res matches Ok(s) && s@ == p,
                        None => res == Err::<String, UrlGenerationError>(
                            UrlGenerationError::NotEnoughElements,
                        ),
                    }
                },
                None => res == Err::<String, UrlGenerationError>(
                    UrlGenerationError::ResourceNotFound,
                ),
            },
    {
        let mut k = self.named.len();
        let ghost nv = self.named();
        proof {
            assert(nv.take(k as int) =~= nv);
        }
        while k > 0
            invariant
                k <= self.named@.len(),
                nv == self.named(),
                last_named(nv, name@) == last_named(nv.take(k as int), name@),
            decreases k,
        {
            proof {
                assert(nv.take(k as int).drop_last() =~= nv.take(k - 1));
                assert(nv.take(k as int).last() == nv[k - 1]);
            }
            let entry = &self.named[k - 1];
            if str_eq(entry.0.as_str(), name) {
                let start: Option<&str> = if entry.2 {
                    None
                } else {
                    Some(self.prefix.as_str())
                };
                return build_path_from(&entry.1, start, elements);
            }
            k -= 1;
        }
        Err(UrlGenerationError::ResourceNotFound)
    }
}

/// The regex sources of the routed patterns of a map, in order.
fn routed_sources<R>(map: &Vec<(Pattern, Option<R>)>) -> (v: Vec<String>)
    ensures
        strings_view(v@) == pattern_sources(routed_patterns(map@)),
{
    let mut v: Vec<String> = Vec::new();
    let mut k: usize = 0;
    proof {
        assert(map@.take(0) =~= Seq::<(Pattern, Option<R>)>::empty());
        assert(strings_view(v@) =~= Seq::<Seq<char>>::empty());
    }
    while k < map.len()
        invariant
            k <= map@.len(),
            strings_view(v@) == pattern_sources(routed_patterns(map@.take(k as int))),
        decreases map@.len() - k,
    {
        let ghost before = v@;
        proof {
            assert(map@.take(k + 1).drop_last() =~= map@.take(k as int));
            assert(map@.take(k + 1).last() == map@[k as int]);
        }
        if map[k].1.is_some() {
            v.push(map[k].0.pattern.clone());
            proof {
                assert(strings_view(v@) =~= strings_view(before).push(map@[k as int].0.pattern_view()));
                assert(pattern_sources(routed_patterns(map@.take(k + 1))) =~= pattern_sources(
                    routed_patterns(map@.take(k as int)),
                ).push(map@[k as int].0.pattern_view()));
            }
        }
        k += 1;
    }
    proof {
        assert(map@.take(k as int) =~= map@);
    }
    v
}

/// The pattern `/lit{name` followed by `tail`: a literal, then a variable
/// segment whose name ends where `tail` starts.
pub open spec fn segment_pattern(lit: Seq<char>, name: Seq<char>, tail: Seq<char>) -> Seq<char> {
    seq!['/'] + lit + seq!['{'] + name + tail
}

/// The pattern `/lit{name:re}`: a literal, then one variable segment with a
/// regex of its own.
pub open spec fn custom_segment_pattern(lit: Seq<char>, name: Seq<char>, re: Seq<char>) -> Seq<char> {
    segment_pattern(lit, name, seq![':'] + re + seq!['}'])
}

/// The pattern `/lit{name}`: a literal, then one variable segment with the
/// default regex.
pub open spec fn default_segment_pattern(lit: Seq<char>, name: Seq<char>) -> Seq<char> {
    segment_pattern(lit, name, seq!['}'])
}

/// No `{` in the literal, no `}` or `:` in the name.
pub open spec fn segment_ok(lit: Seq<char>, name: Seq<char>) -> bool {
    &&& forall|i: int| 0 <= i < lit.len() ==> lit[i] != '{'
    &&& forall|i: int| 0 <= i < name.len() ==> name[i] != '}' && name[i] != ':'
}

/// The conditions under which `/lit{name:re}` reads as a literal and one
/// segment: no `{` in the literal, no `}` or `:` in the name or the regex,
/// and a regex that does not start with a space.
pub open spec fn custom_segment_ok(lit: Seq<char>, name: Seq<char>, re: Seq<char>) -> bool {
    &&& segment_ok(lit, name)
    &&& forall|i: int| 0 <= i < re.len() ==> re[i] != '}' && re[i] != ':'
    &&& re.len() > 0
    &&& re[0] != ' '
}

proof fn lemma_parse_literal(lit: Seq<char>, name: Seq<char>, tail: Seq<char>, starts: Seq<char>, k: nat)
    requires
        segment_ok(lit, name),
        k <= lit.len(),
    ensures
        parse_prefix(segment_pattern(lit, name, tail), starts, 1 + k) == (ParseState {
            re: starts + lit.take(k as int),
            el: lit.take(k as int),
            in_param: false,
            in_param_pattern: false,
            param_name: Seq::empty(),
            param_pattern: default_param_pattern(),
            elems: Seq::empty(),
        }),
    decreases k,
{
    let p = segment_pattern(lit, name, tail);
    if k == 0 {
        assert(p[0] == '/');
        assert(lit.take(0) =~= Seq::<char>::empty());
        assert(starts + Seq::<char>::empty() =~= starts);
        assert(parse_prefix(p, starts, 0) == parse_init(starts));
    } else {
        let j = (k - 1) as nat;
        lemma_parse_literal(lit, name, tail, starts, j);
        assert(p[(1 + j) as int] == lit[j as int]);
        assert((starts + lit.take(j as int)).push(lit[j as int]) =~= starts + lit.take(k as int));
        assert(lit.take(j as int).push(lit[j as int]) =~= lit.take(k as int));
    }
}

proof fn lemma_parse_name(lit: Seq<char>, name: Seq<char>, tail: Seq<char>, starts: Seq<char>, k: nat)
    requires
        segment_ok(lit, name),
        k <= name.len(),
    ensures
        parse_prefix(segment_pattern(lit, name, tail), starts, lit.len() + 2 + k) == (ParseState {
            re: starts + lit,
            el: Seq::empty(),
            in_param: true,
            in_param_pattern: false,
            param_name: name.take(k as int),
            param_pattern: default_param_pattern(),
            elems: seq![ElementView::Str(lit)],
        }),
    decreases k,
{
    let p = segment_pattern(lit, name, tail);
    let l = lit.len();
    if k == 0 {
        lemma_parse_literal(lit, name, tail, starts, l);
        assert(lit.take(l as int) =~= lit);
        assert(p[(1 + l) as int] == '{');
        assert(name.take(0) =~= Seq::<char>::empty());
        assert(Seq::<ElementView>::empty().push(ElementView::Str(lit)) =~= seq![ElementView::Str(lit)]);
    } else {
        let j = (k - 1) as nat;
        lemma_parse_name(lit, name, tail, starts, j);
        assert(p[(l + 2 + j) as int] == name[j as int]);
        assert(name.take(j as int).push(name[j as int]) =~= name.take(k as int));
    }
}

/// Law: a segment without a regex of its own, `{name}`, matches the default
/// `[^/]+`. The pattern `/lit{name}` compiles to exactly `starts`, the
/// literal, the named group `(?P<name>[^/]+)` and `$`, and its elements are
/// the literal and the variable `name`.
pub proof fn law_default_segment_regex(lit: Seq<char>, name: Seq<char>, starts: Seq<char>)
    requires
        segment_ok(lit, name),
    ensures
        parse_spec(default_segment_pattern(lit, name), starts).0 == starts + lit + seq![
            '(',
            '?',
            'P',
            '<',
        ] + name + seq!['>', '[', '^', '/', ']', '+', ')', '$'],
        parse_spec(default_segment_pattern(lit, name), starts).1 == seq![
            ElementView::Str(lit),
            ElementView::Var(name),
        ],
{
    let p = default_segment_pattern(lit, name);
    let l = lit.len();
    let n = name.len();
    lemma_parse_name(lit, name, seq!['}'], starts, n);
    assert(name.take(n as int) =~= name);
    assert(p.len() == l + n + 3);
    assert(p[(l + 2 + n) as int] == '}');
    let st = parse_prefix(p, starts, p.len());
    assert(st.el.len() == 0);
    assert(st.re =~= starts + lit + named_group(name, default_param_pattern()));
    assert((starts + lit + named_group(name, default_param_pattern())).push('$') =~= starts + lit
        + seq!['(', '?', 'P', '<'] + name + seq!['>', '[', '^', '/', ']', '+', ')', '$']);
    assert(seq![ElementView::Str(lit)].push(ElementView::Var(name)) =~= seq![
        ElementView::Str(lit),
        ElementView::Var(name),
    ]);
}

proof fn lemma_parse_regex(lit: Seq<char>, name: Seq<char>, re: Seq<char>, starts: Seq<char>, k: nat)
    requires
        custom_segment_ok(lit, name, re),
        k <= re.len(),
    ensures
        parse_prefix(custom_segment_pattern(lit, name, re), starts, lit.len() + name.len() + 3 + k)
            == (ParseState {
            re: starts + lit,
            el: Seq::empty(),
            in_param: true,
            in_param_pattern: true,
            param_name: name,
            param_pattern: re.take(k as int),
            elems: seq![ElementView::Str(lit)],
        }),
    decreases k,
{
    let p = custom_segment_pattern(lit, name, re);
    let l = lit.len();
    let n = name.len();
    if k == 0 {
        lemma_parse_name(lit, name, seq![':'] + re + seq!['}'], starts, n);
        assert(name.take(n as int) =~= name);
        assert(p[(l + 2 + n) as int] == ':');
        assert(re.take(0) =~= Seq::<char>::empty());
    } else {
        let j = (k - 1) as nat;
        lemma_parse_regex(lit, name, re, starts, j);
        assert(p[(l + n + 3 + j) as int] == re[j as int]);
        if j > 0 {
            assert(re.take(j as int).len() > 0);
        }
        assert(re.take(j as int).push(re[j as int]) =~= re.take(k as int));
    }
}

/// Law: in a segment with a regex of its own, `{name:re}`, the regex
/// replaces the default `[^/]+`. The pattern `/lit{name:re}` compiles to
/// exactly `starts`, the literal, the named group `(?P<name>re)` and `$`,
/// and its elements are the literal and the variable `name`.
pub proof fn law_custom_regex_replaces_default(
    lit: Seq<char>,
    name: Seq<char>,
    re: Seq<char>,
    starts: Seq<char>,
)
    requires
        custom_segment_ok(lit, name, re),
    ensures
        parse_spec(custom_segment_pattern(lit, name, re), starts).0 == starts + lit + seq![
            '(',
            '?',
            'P',
            '<',
        ] + name + seq!['>'] + re + seq![')', '$'],
        parse_spec(custom_segment_pattern(lit, name, re), starts).1 == seq![
            ElementView::Str(lit),
            ElementView::Var(name),
        ],
{
    let p = custom_segment_pattern(lit, name, re);
    let l = lit.len();
    let n = name.len();
    let r = re.len();
    lemma_parse_regex(lit, name, re, starts, r);
    assert(re.take(r as int) =~= re);
    assert(p.len() == l + n + r + 4);
    assert(p[(l + n + 3 + r) as int] == '}');
    let st = parse_prefix(p, starts, p.len());
    assert(st.el.len() == 0);
    assert(st.re =~= starts + lit + named_group(name, re));
    assert((starts + lit + named_group(name, re)).push('$') =~= starts + lit + seq![
        '(',
        '?',
        'P',
        '<',
    ] + name + seq!['>'] + re + seq![')', '$']);
    assert(seq![ElementView::Str(lit)].push(ElementView::Var(name)) =~= seq![
        ElementView::Str(lit),
        ElementView::Var(name),
    ]);
}

/// The text an element stands for in a pattern: literal text as it is, a
/// variable segment as `{name}`.
pub open spec fn element_text(e: ElementView) -> Seq<char> {
    match e {
        ElementView::Str(t) => t,
        ElementView::Var(n) => seq!['{'] + n + seq!['}'],
    }
}

/// The elements written back as pattern text, one after the other.
pub open spec fn elements_text(elems: Seq<ElementView>) -> Seq<char>
    decreases elems.len(),
{
    if elems.len() == 0 {
        Seq::empty()
    } else {
        elements_text(elems.drop_last()) + element_text(elems.last())
    }
}

/// A pattern without its optional leading `/`.
pub open spec fn pattern_text(pattern: Seq<char>) -> Seq<char> {
    if pattern.len() > 0 && pattern[0] == '/' {
        pattern.skip(1)
    } else {
        pattern
    }
}

proof fn lemma_parse_prefix_text(pattern: Seq<char>, starts: Seq<char>, n: nat)
    requires
        n <= pattern.len(),
        forall|i: int| 0 <= i < pattern.len() ==> pattern[i] != ':',
    ensures
        ({
            let st = parse_prefix(pattern, starts, n);
            &&& !st.in_param_pattern
            &&& st.in_param ==> st.el.len() == 0
            &&& !st.in_param ==> st.param_name.len() == 0
            &&& st.in_param ==> elements_text(st.elems) + seq!['{'] + st.param_name
                == pattern_text(pattern.take(n as int))
            &&& !st.in_param ==> elements_text(st.elems) + st.el == pattern_text(
                pattern.take(n as int),
            )
        }),
    decreases n,
{
    if n == 0 {
        assert(pattern.take(0) =~= Seq::<char>::empty());
        assert(elements_text(Seq::<ElementView>::empty()) + Seq::<char>::empty() =~= Seq::<
            char,
        >::empty());
    } else {
        let m = (n - 1) as nat;
        lemma_parse_prefix_text(pattern, starts, m);
        let st = parse_prefix(pattern, starts, m);
        let ch = pattern[m as int];
        let before = pattern_text(pattern.take(m as int));
        let after = pattern_text(pattern.take(n as int));
        assert(pattern.take(n as int) =~= pattern.take(m as int).push(ch));
        if m == 0 && ch == '/' {
            assert(after =~= Seq::<char>::empty());
            assert(before =~= Seq::<char>::empty());
        } else {
            if m == 0 {
                assert(before =~= Seq::<char>::empty());
                assert(after =~= seq![ch]);
            } else {
                assert(pattern.take(m as int)[0] == pattern[0]);
                assert(pattern.take(n as int)[0] == pattern[0]);
                if pattern[0] == '/' {
                    assert(after =~= before.push(ch));
                } else {
                    assert(after =~= before.push(ch));
                }
            }
            assert(after =~= before.push(ch));
            let nst = parse_step(st, m as int, ch);
            if st.in_param {
                if ch == '}' {
                    let e = ElementView::Var(st.param_name);
                    assert(nst.elems.drop_last() =~= st.elems);
                    assert(elements_text(nst.elems) == elements_text(st.elems) + element_text(e));
                    assert(elements_text(nst.elems) + nst.el =~= (elements_text(st.elems)
                        + seq!['{'] + st.param_name).push(ch));
                } else {
                    assert(elements_text(nst.elems) + seq!['{'] + nst.param_name =~= (
                    elements_text(st.elems) + seq!['{'] + st.param_name).push(ch));
                }
            } else if ch == '{' {
                let e = ElementView::Str(st.el);
                assert(nst.elems.drop_last() =~= st.elems);
                assert(elements_text(nst.elems) == elements_text(st.elems) + element_text(e));
                assert(nst.param_name =~= st.param_name);
                assert(elements_text(nst.elems) + seq!['{'] + nst.param_name =~= (
                elements_text(st.elems) + st.el).push(ch) + st.param_name);
            } else {
                assert(elements_text(nst.elems) + nst.el =~= (elements_text(st.elems)
                    + st.el).push(ch));
            }
        }
    }
}

/// Law: written back one after the other (a variable segment as `{name}`),
/// the elements of a parsed pattern give the pattern again, without its
/// leading `/`, for a pattern whose variable segments carry no regex of their
/// own and that does not end inside an open `{`.
pub proof fn law_elements_give_pattern(pattern: Seq<char>, starts: Seq<char>)
    requires
        forall|i: int| 0 <= i < pattern.len() ==> pattern[i] != ':',
        !parse_prefix(pattern, starts, pattern.len()).in_param,
    ensures
        elements_text(parse_spec(pattern, starts).1) == pattern_text(pattern),
{
    lemma_parse_prefix_text(pattern, starts, pattern.len());
    let st = parse_prefix(pattern, starts, pattern.len());
    assert(pattern.take(pattern.len() as int) =~= pattern);
    if st.el.len() > 0 {
        assert(closed_elements(st).drop_last() =~= st.elems);
    } else {
        assert(st.el =~= Seq::<char>::empty());
        assert(elements_text(st.elems) + st.el =~= elements_text(st.elems));
    }
}

/// A built path starts with what it was started with: the path of a routed
/// resource is under the router's prefix.
pub proof fn law_built_path_keeps_start(elems: Seq<ElementView>, vals: Seq<Seq<char>>, acc: Seq<char>)
    ensures
        build_path(elems, vals, acc) matches Some(p) ==> p.len() >= acc.len() && p.take(
            acc.len() as int,
        ) == acc,
    decreases elems.len(),
{
    if elems.len() > 0 {
        match elems[0] {
            ElementView::Str(s) => {
                law_built_path_keeps_start(elems.drop_first(), vals, acc + s);
                if let Some(p) = build_path(elems, vals, acc) {
                    assert(p.take((acc + s).len() as int).take(acc.len() as int) =~= p.take(
                        acc.len() as int,
                    ));
                    assert((acc + s).take(acc.len() as int) =~= acc);
                }
            },
            ElementView::Var(_) => {
                if vals.len() > 0 {
                    law_built_path_keeps_start(elems.drop_first(), vals.drop_first(), acc + vals[0]);
                    if let Some(p) = build_path(elems, vals, acc) {
                        assert(p.take((acc + vals[0]).len() as int).take(acc.len() as int)
                            =~= p.take(acc.len() as int));
                        assert((acc + vals[0]).take(acc.len() as int) =~= acc);
                    }
                }
            },
        }
    } else {
        assert(acc.take(acc.len() as int) =~= acc);
    }
}

/// The index of the last entry with the given name.
pub open spec fn last_named(entries: Seq<(Seq<char>, Seq<ElementView>, bool)>, name: Seq<char>) -> Option<
    int,
>
    decreases entries.len(),
{
    if entries.len() == 0 {
        None
    } else if entries.last().0 == name {
        Some(entries.len() - 1)
    } else {
        last_named(entries.drop_last(), name)
    }
}

/// Equality of two string slices, character by character.
fn str_eq(a: &str, b: &str) -> (r: bool)
    ensures
        r == (a@ == b@),
{
    let x = str_chars(a);
    let y = str_chars(b);
    if x.len() != y.len() {
        assert(x@.len() != y@.len());
        return false;
    }
    let mut i: usize = 0;
    while i < x.len()
        invariant
            i <= x@.len(),
            x@.len() == y@.len(),
            x@ == a@,
            y@ == b@,
            forall|j: int| 0 <= j < i ==> x@[j] == y@[j],
        decreases x@.len() - i,
    {
        if x[i] != y[i] {
            assert(x@[i as int] != y@[i as int]);
            assert(x@ != y@);
            return false;
        }
        i += 1;
    }
    assert(x@ =~= y@);
    true
}

/// The prefix a router is created with: trimmed of whitespace, then of `/` at
/// its end.
fn router_prefix(prefix: &str) -> (p: String)
    ensures
        p@ == strip_trailing_slashes(spec_trim(prefix@)),
{
    let t = str_chars(str_trim(prefix));
    let mut n = t.len();
    proof {
        assert(t@.take(n as int) =~= t@);
    }
    while n > 0 && t[n - 1] == '/'
        invariant
            n <= t@.len(),
            strip_trailing_slashes(t@) == strip_trailing_slashes(t@.take(n as int)),
        decreases n,
    {
        proof {
            assert(t@.take(n as int).drop_last() =~= t@.take(n - 1));
        }
        n -= 1;
    }
    let mut out: Vec<char> = Vec::new();
    let mut i: usize = 0;
    while i < n
        invariant
            i <= n <= t@.len(),
            out@ == t@.take(i as int),
        decreases n - i,
    {
        out.push(t[i]);
        i += 1;
        assert(out@ =~= t@.take(i as int));
    }
    proof {
        assert(strip_trailing_slashes(t@.take(n as int)) == t@.take(n as int));
    }
    string_from_chars(out.as_slice())
}

} // verus!
