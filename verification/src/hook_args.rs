//! The argument grammar of the hook-wrapping test decorator.
//!
//! The decorator's configuration text is a comma-separated list of
//! `key = qualified::path` entries (a trailing comma is allowed, as the
//! list is a terminated list).  Parsing happens in two phases:
//!
//! 1. [`RawArgs::parse`] turns the raw bytes into a sequence of
//!    [`RawHook`] records, which is syntactically what we expect;
//! 2. [`RawArgs::validate`] routes each record by key into the `before`
//!    or `after` bucket of an [`Args`] value (semantic validation),
//!    failing fast on the first key that is neither.
//!
//! The grammar, with ASCII whitespace allowed between tokens:
//!
//! ```text
//! args  :=  ws | hook ( "," hook )* [ "," ]
//! hook  :=  ident "=" path
//! path  :=  ident ( "::" ident )*
//! ident :=  [A-Za-z_][A-Za-z0-9_]*
//! ```
//!
//! The specification-level parser ([`parse_args_at`] and its helpers) is a
//! recursive descent over the byte sequence; the executable parser is
//! proved to return exactly its result.

use vstd::prelude::*;

use crate::byteutil::bytes_is;
use crate::byteutil::copy_range;

verus! {

// ---------------------------------------------------------------------------
// Character classes (bytes are ASCII codes).
// ---------------------------------------------------------------------------

/// ASCII whitespace accepted between tokens: space, tab, line feed, carriage
/// return.
pub open spec fn is_ws(b: u8) -> bool {
    b == 32 || b == 9 || b == 10 || b == 13
}

/// First byte of an identifier: a letter or an underscore.
pub open spec fn is_ident_start(b: u8) -> bool {
    (65 <= b && b <= 90) || (97 <= b && b <= 122) || b == 95
}

/// A decimal digit.
pub open spec fn is_digit(b: u8) -> bool {
    48 <= b && b <= 57
}

/// A byte that may continue an identifier.
pub open spec fn is_ident_cont(b: u8) -> bool {
    is_ident_start(b) || is_digit(b)
}

/// The bytes of the key `before`.
pub open spec fn before_key() -> Seq<u8> {
    seq![98u8, 101u8, 102u8, 111u8, 114u8, 101u8]
}

/// The bytes of the key `after`.
pub open spec fn after_key() -> Seq<u8> {
    seq![97u8, 102u8, 116u8, 101u8, 114u8]
}

// ---------------------------------------------------------------------------
// Data model.
// ---------------------------------------------------------------------------

/// A `::`-separated reference to a zero-argument hook function,
/// unambiguous within the compilation unit.  Each segment is the byte
/// text of one identifier.
#[derive(Debug, Clone, PartialEq, Eq)]
pub struct QualifiedPath {
    pub segments: Vec<Vec<u8>>,
}

impl View for QualifiedPath {
    type V = Seq<Seq<u8>>;

    open spec fn view(&self) -> Seq<Seq<u8>> {
        self.segments.deep_view()
    }
}

impl DeepView for QualifiedPath {
    type V = Seq<Seq<u8>>;

    open spec fn deep_view(&self) -> Seq<Seq<u8>> {
        self.segments.deep_view()
    }
}

/// One raw `key = path` record, exactly as it appeared in the argument
/// list.  `type_` is the key's identifier text.
#[derive(Debug, Clone, PartialEq, Eq)]
pub struct RawHook {
    pub type_: Vec<u8>,
    pub fn_path: QualifiedPath,
}

/// The mathematical value of a [`RawHook`].
pub ghost struct RawHookV {
    pub type_: Seq<u8>,
    pub fn_path: Seq<Seq<u8>>,
}

impl View for RawHook {
    type V = RawHookV;

    open spec fn view(&self) -> RawHookV {
        RawHookV { type_: self.type_@, fn_path: self.fn_path.deep_view() }
    }
}

impl DeepView for RawHook {
    type V = RawHookV;

    open spec fn deep_view(&self) -> RawHookV {
        self@
    }
}

/// The ordered sequence of raw records parsed from the argument text.
#[derive(Debug, Clone, PartialEq, Eq)]
pub struct RawArgs {
    pub vars: Vec<RawHook>,
}

impl View for RawArgs {
    type V = Seq<RawHookV>;

    open spec fn view(&self) -> Seq<RawHookV> {
        self.vars.deep_view()
    }
}

/// The validated hook set: the `before` and `after` hook paths, each in
/// their order of appearance in the argument list.
#[derive(Debug, Clone, PartialEq, Eq)]
pub struct Args {
    pub before: Vec<QualifiedPath>,
    pub after: Vec<QualifiedPath>,
}

/// The mathematical value of an [`Args`].
pub ghost struct ArgsV {
    pub before: Seq<Seq<Seq<u8>>>,
    pub after: Seq<Seq<Seq<u8>>>,
}

impl View for Args {
    type V = ArgsV;

    open spec fn view(&self) -> ArgsV {
        ArgsV { before: self.before.deep_view(), after: self.after.deep_view() }
    }
}

/// The argument text does not match the grammar.  `pos` is the byte
/// offset at which parsing failed.
#[derive(Debug, Clone, PartialEq, Eq)]
pub struct ParseError {
    pub pos: usize,
}

/// A key other than `before` or `after` appeared in the argument list.
/// `index` is the position of the offending record in the parsed list and
/// `key` is the offending key's text.
#[derive(Debug, Clone, PartialEq, Eq)]
pub struct UnknownHookKeyError {
    pub index: usize,
    pub key: Vec<u8>,
}

// ---------------------------------------------------------------------------
// Specification-level parser.
// ---------------------------------------------------------------------------

/// Index of the first byte at or after `i` that is not whitespace, or
/// the length of `s` if only whitespace remains.
pub open spec fn skip_ws_at(s: Seq<u8>, i: int) -> int
    decreases s.len() - i,
{
    if i < s.len() && is_ws(s[i]) {
        skip_ws_at(s, i + 1)
    } else {
        i
    }
}

/// End of the identifier-continuation run that starts at `i`.
pub open spec fn ident_end_at(s: Seq<u8>, i: int) -> int
    decreases s.len() - i,
{
    if i < s.len() && is_ident_cont(s[i]) {
        ident_end_at(s, i + 1)
    } else {
        i
    }
}

pub proof fn lemma_skip_ws_at(s: Seq<u8>, i: int)
    ensures
        i <= skip_ws_at(s, i),
        i <= s.len() ==> skip_ws_at(s, i) <= s.len(),
    decreases s.len() - i,
{
    if i < s.len() && is_ws(s[i]) {
        lemma_skip_ws_at(s, i + 1);
    }
}

pub proof fn lemma_ident_end_at(s: Seq<u8>, i: int)
    ensures
        i <= ident_end_at(s, i),
        i <= s.len() ==> ident_end_at(s, i) <= s.len(),
    decreases s.len() - i,
{
    if i < s.len() && is_ident_cont(s[i]) {
        lemma_ident_end_at(s, i + 1);
    }
}

/// Parses the `( "::" ident )*` tail of a qualified path, starting at `i`.
/// Returns the additional segments and the index just after the path, or
/// `None` when a `::` separator is not followed by an identifier.
pub open spec fn parse_path_rest(s: Seq<u8>, i: int) -> Option<(Seq<Seq<u8>>, int)>
    decreases s.len() - i,
        via parse_path_rest_decreases
{
    let j = skip_ws_at(s, i);
    if j + 2 <= s.len() && s[j] == 58 && s[j + 1] == 58 {
        let k = skip_ws_at(s, j + 2);
        if k < s.len() && is_ident_start(s[k]) {
            let e = ident_end_at(s, k);
            match parse_path_rest(s, e) {
                Option::None => Option::None,
                Option::Some((more, m)) => Option::Some((seq![s.subrange(k, e)] + more, m)),
            }
        } else {
            Option::None
        }
    } else {
        Option::Some((Seq::empty(), i))
    }
}

#[via_fn]
proof fn parse_path_rest_decreases(s: Seq<u8>, i: int) {
    lemma_skip_ws_at(s, i);
    let j = skip_ws_at(s, i);
    lemma_skip_ws_at(s, j + 2);
    let k = skip_ws_at(s, j + 2);
    lemma_ident_end_at(s, k);
}

pub proof fn lemma_parse_path_rest_bounds(s: Seq<u8>, i: int)
    ensures
        parse_path_rest(s, i) matches Option::Some((more, m)) ==> i <= m,
        i <= s.len() ==> (parse_path_rest(s, i) matches Option::Some((more, m)) ==> m <= s.len()),
    decreases s.len() - i,
{
    lemma_skip_ws_at(s, i);
    let j = skip_ws_at(s, i);
    if j + 2 <= s.len() && s[j] == 58 && s[j + 1] == 58 {
        lemma_skip_ws_at(s, j + 2);
        let k = skip_ws_at(s, j + 2);
        if k < s.len() && is_ident_start(s[k]) {
            lemma_ident_end_at(s, k);
            let e = ident_end_at(s, k);
            lemma_parse_path_rest_bounds(s, e);
        }
    }
}

/// Parses a full qualified path (`ident ( "::" ident )*`) starting at `i`,
/// after optional whitespace.  Returns its segments and the index just
/// after the path.
pub open spec fn parse_path_at(s: Seq<u8>, i: int) -> Option<(Seq<Seq<u8>>, int)> {
    let j = skip_ws_at(s, i);
    if j < s.len() && is_ident_start(s[j]) {
        let e = ident_end_at(s, j);
        match parse_path_rest(s, e) {
            Option::None => Option::None,
            Option::Some((more, m)) => Option::Some((seq![s.subrange(j, e)] + more, m)),
        }
    } else {
        Option::None
    }
}

pub proof fn lemma_parse_path_at_bounds(s: Seq<u8>, i: int)
    ensures
        parse_path_at(s, i) matches Option::Some((p, m)) ==> i < m,
        i <= s.len() ==> (parse_path_at(s, i) matches Option::Some((p, m)) ==> m <= s.len()),
{
    lemma_skip_ws_at(s, i);
    let j = skip_ws_at(s, i);
    if j < s.len() && is_ident_start(s[j]) {
        let e = ident_end_at(s, j);
        assert(ident_end_at(s, j) == ident_end_at(s, j + 1));
        lemma_ident_end_at(s, j + 1);
        lemma_parse_path_rest_bounds(s, e);
    }
}

/// Parses one `key = path` record starting at `i`, after optional
/// whitespace.  Returns the record and the index just after it.
pub open spec fn parse_hook_at(s: Seq<u8>, i: int) -> Option<(RawHookV, int)> {
    let j = skip_ws_at(s, i);
    if j < s.len() && is_ident_start(s[j]) {
        let e = ident_end_at(s, j);
        let q = skip_ws_at(s, e);
        if q < s.len() && s[q] == 61 {
            match parse_path_at(s, q + 1) {
                Option::None => Option::None,
                Option::Some((p, m)) => Option::Some(
                    (RawHookV { type_: s.subrange(j, e), fn_path: p }, m),
                ),
            }
        } else {
            Option::None
        }
    } else {
        Option::None
    }
}

pub proof fn lemma_parse_hook_at_bounds(s: Seq<u8>, i: int)
    ensures
        parse_hook_at(s, i) matches Option::Some((h, m)) ==> i < m,
        i <= s.len() ==> (parse_hook_at(s, i) matches Option::Some((h, m)) ==> m <= s.len()),
{
    lemma_skip_ws_at(s, i);
    let j = skip_ws_at(s, i);
    if j < s.len() && is_ident_start(s[j]) {
        lemma_ident_end_at(s, j);
        let e = ident_end_at(s, j);
        lemma_skip_ws_at(s, e);
        let q = skip_ws_at(s, e);
        if q < s.len() && s[q] == 61 {
            lemma_parse_path_at_bounds(s, q + 1);
        }
    }
}

/// Parses the whole argument text from `i` to the end: an empty (or
/// all-whitespace) remainder yields the empty record list; otherwise a
/// record, optionally followed by a comma and the rest of the list (so a
/// trailing comma is allowed).  `None` when the text does not match the
/// grammar.
pub open spec fn parse_args_at(s: Seq<u8>, i: int) -> Option<Seq<RawHookV>>
    decreases s.len() - i,
        via parse_args_at_decreases
{
    if skip_ws_at(s, i) >= s.len() {
        Option::Some(Seq::empty())
    } else {
        match parse_hook_at(s, i) {
            Option::None => Option::None,
            Option::Some((h, m)) => {
                let q = skip_ws_at(s, m);
                if q >= s.len() {
                    Option::Some(seq![h])
                } else if s[q] == 44 {
                    match parse_args_at(s, q + 1) {
                        Option::None => Option::None,
                        Option::Some(rest) => Option::Some(seq![h] + rest),
                    }
                } else {
                    Option::None
                }
            },
        }
    }
}

#[via_fn]
proof fn parse_args_at_decreases(s: Seq<u8>, i: int) {
    lemma_skip_ws_at(s, i);
    lemma_parse_hook_at_bounds(s, i);
    match parse_hook_at(s, i) {
        Option::Some((h, m)) => {
            lemma_skip_ws_at(s, m);
        },
        Option::None => {},
    }
}

/// The records denoted by the decorator's whole argument text.
pub open spec fn parse_args(s: Seq<u8>) -> Option<Seq<RawHookV>> {
    parse_args_at(s, 0)
}

// ---------------------------------------------------------------------------
// Executable parser.
// ---------------------------------------------------------------------------

fn ws(b: u8) -> (r: bool)
    ensures
        r == is_ws(b),
{
    b == 32 || b == 9 || b == 10 || b == 13
}

fn ident_start(b: u8) -> (r: bool)
    ensures
        r == is_ident_start(b),
{
    (65 <= b && b <= 90) || (97 <= b && b <= 122) || b == 95
}

fn ident_cont(b: u8) -> (r: bool)
    ensures
        r == is_ident_cont(b),
{
    ident_start(b) || (48 <= b && b <= 57)
}

fn skip_ws(s: &[u8], i: usize) -> (r: usize)
    requires
        i <= s@.len(),
    ensures
        r as int == skip_ws_at(s@, i as int),
        i <= r <= s@.len(),
{
    let mut j = i;
    while j < s.len() && ws(s[j])
        invariant
            i <= j <= s@.len(),
            skip_ws_at(s@, i as int) == skip_ws_at(s@, j as int),
        decreases s@.len() - j,
    {
        j += 1;
    }
    j
}

fn ident_end(s: &[u8], i: usize) -> (r: usize)
    requires
        i <= s@.len(),
    ensures
        r as int == ident_end_at(s@, i as int),
        i <= r <= s@.len(),
{
    let mut j = i;
    while j < s.len() && ident_cont(s[j])
        invariant
            i <= j <= s@.len(),
            ident_end_at(s@, i as int) == ident_end_at(s@, j as int),
        decreases s@.len() - j,
    {
        j += 1;
    }
    j
}


#[verifier::loop_isolation(false)]
fn parse_path(s: &[u8], i: usize) -> (r: Option<(QualifiedPath, usize)>)
    requires
        i <= s@.len(),
    ensures
        match r {
            Option::Some((p, m)) => {
                &&& parse_path_at(s@, i as int) matches Option::Some((pv, mv)) && p@ == pv && m
                    as int == mv
                &&& i < m <= s@.len()
            },
            Option::None => parse_path_at(s@, i as int) is None,
        },
{
    proof {
        lemma_parse_path_at_bounds(s@, i as int);
    }
    let j = skip_ws(s, i);
    if j < s.len() && ident_start(s[j]) {
        let e = ident_end(s, j);
        let first = copy_range(s, j, e);
        let mut segments: Vec<Vec<u8>> = Vec::new();
        segments.push(first);
        let ghost e0: int = e as int;
        let mut pos = e;
        proof {
            assert(ident_end_at(s@, j as int) == ident_end_at(s@, j as int + 1));
            lemma_ident_end_at(s@, j as int + 1);
            assert(segments.deep_view() =~~= seq![s@.subrange(j as int, e as int)]);
            match parse_path_rest(s@, e0) {
                Option::Some((more, m)) => {
                    assert(segments.deep_view().skip(1) + more =~= more);
                },
                Option::None => {},
            }
        }
        loop
            invariant
                j < e <= pos <= s@.len(),
                segments.deep_view().len() >= 1,
                segments.deep_view()[0] == s@.subrange(j as int, e as int),
                ({
                    let acc = segments.deep_view().skip(1);
                    match parse_path_rest(s@, pos as int) {
                        Option::None => parse_path_rest(s@, e0) is None,
                        Option::Some((more, m)) => parse_path_rest(s@, e0)
                            == Option::Some::<(Seq<Seq<u8>>, int)>((acc + more, m)),
                    }
                }),
            decreases s@.len() - pos,
        {
            let j2 = skip_ws(s, pos);
            if j2 < s.len() && j2 + 1 < s.len() && s[j2] == 58 && s[j2 + 1] == 58 {
                let k = skip_ws(s, j2 + 2);
                if k < s.len() && ident_start(s[k]) {
                    let e2 = ident_end(s, k);
                    let ghost old_segs = segments.deep_view();
                    let seg = copy_range(s, k, e2);
                    segments.push(seg);
                    proof {
                        let sub = s@.subrange(k as int, e2 as int);
                        assert(segments.deep_view() =~~= old_segs.push(sub));
                        assert(segments.deep_view().skip(1) =~= old_segs.skip(1).push(sub));
                        match parse_path_rest(s@, e2 as int) {
                            Option::Some((more2, m2)) => {
                                assert(parse_path_rest(s@, pos as int) == Option::Some::<
                                    (Seq<Seq<u8>>, int),
                                >((seq![sub] + more2, m2)));
                                assert(old_segs.skip(1).push(sub) + more2 =~= old_segs.skip(1)
                                    + (seq![sub] + more2));
                            },
                            Option::None => {
                                assert(parse_path_rest(s@, pos as int) is None);
                            },
                        }
                    }
                    pos = e2;
                } else {
                    proof {
                        assert(parse_path_rest(s@, pos as int) is None);
                    }
                    return Option::None;
                }
            } else {
                proof {
                    assert(parse_path_rest(s@, pos as int) == Option::Some::<(Seq<Seq<u8>>, int)>(
                        (Seq::empty(), pos as int),
                    ));
                    assert(segments.deep_view().skip(1) + Seq::<Seq<u8>>::empty()
                        =~= segments.deep_view().skip(1));
                    assert(parse_path_rest(s@, e0) == Option::Some::<(Seq<Seq<u8>>, int)>(
                        (segments.deep_view().skip(1), pos as int),
                    ));
                    assert(seq![s@.subrange(j as int, e as int)] + segments.deep_view().skip(1)
                        =~= segments.deep_view());
                    assert(parse_path_at(s@, i as int) == Option::Some::<(Seq<Seq<u8>>, int)>(
                        (segments.deep_view(), pos as int),
                    ));
                }
                return Option::Some((QualifiedPath { segments }, pos));
            }
        }
    } else {
        Option::None
    }
}

impl RawHook {
    /// Parses one `key = path` record starting at byte `i` of `s`.
    /// On success returns the record and the index just after it; on
    /// failure returns the byte offset at which parsing failed.
    pub fn parse(s: &[u8], i: usize) -> (r: Result<(RawHook, usize), ParseError>)
        requires
            i <= s@.len(),
        ensures
            match r {
                Result::Ok((h, m)) => {
                    &&& parse_hook_at(s@, i as int) matches Option::Some((hv, mv)) && h@ == hv && m
                        as int == mv
                    &&& i < m <= s@.len()
                },
                Result::Err(_) => parse_hook_at(s@, i as int) is None,
            },
    {
        proof {
            lemma_parse_hook_at_bounds(s@, i as int);
        }
        let j = skip_ws(s, i);
        if j < s.len() && ident_start(s[j]) {
            let e = ident_end(s, j);
            let key = copy_range(s, j, e);
            let q = skip_ws(s, e);
            if q < s.len() && s[q] == 61 {
                match parse_path(s, q + 1) {
                    Option::Some((p, m)) => Result::Ok((RawHook { type_: key, fn_path: p }, m)),
                    Option::None => Result::Err(ParseError { pos: q + 1 }),
                }
            } else {
                Result::Err(ParseError { pos: q })
            }
        } else {
            Result::Err(ParseError { pos: j })
        }
    }
}

impl RawArgs {
    /// Parses the decorator's whole argument text into the ordered list of
    /// raw `key = path` records.  Fails with a [`ParseError`] exactly when
    /// the text does not match the grammar.
    #[verifier::loop_isolation(false)]
    pub fn parse(s: &[u8]) -> (r: Result<RawArgs, ParseError>)
        ensures
            match r {
                Result::Ok(a) => parse_args(s@) matches Option::Some(hs) && a@ == hs,
                Result::Err(_) => parse_args(s@) is None,
            },
    {
        let mut vars: Vec<RawHook> = Vec::new();
        let mut pos: usize = 0;
        loop
            invariant
                pos <= s@.len(),
                ({
                    match parse_args_at(s@, pos as int) {
                        Option::None => parse_args_at(s@, 0) is None,
                        Option::Some(rest) => parse_args_at(s@, 0) == Option::Some(
                            vars.deep_view() + rest,
                        ),
                    }
                }),
            decreases s@.len() - pos,
        {
            let j = skip_ws(s, pos);
            if j >= s.len() {
                proof {
                    assert(parse_args_at(s@, pos as int) == Option::Some(Seq::<RawHookV>::empty()));
                    assert(vars.deep_view() + Seq::<RawHookV>::empty() =~= vars.deep_view());
                }
                return Result::Ok(RawArgs { vars });
            }
            match RawHook::parse(s, pos) {
                Result::Err(e) => {
                    return Result::Err(e);
                },
                Result::Ok((h, m)) => {
                    let ghost old_vars = vars.deep_view();
                    let ghost hv = h@;
                    vars.push(h);
                    proof {
                        assert(vars.deep_view() =~= old_vars.push(hv));
                    }
                    let q = skip_ws(s, m);
                    if q >= s.len() {
                        proof {
                            assert(parse_args_at(s@, pos as int) == Option::Some(seq![hv]));
                            assert(old_vars + seq![hv] =~= vars.deep_view());
                        }
                        return Result::Ok(RawArgs { vars });
                    } else if s[q] == 44 {
                        proof {
                            match parse_args_at(s@, q as int + 1) {
                                Option::Some(rest) => {
                                    assert(parse_args_at(s@, pos as int) == Option::Some(
                                        seq![hv] + rest,
                                    ));
                                    assert(old_vars + (seq![hv] + rest) =~= vars.deep_view()
                                        + rest);
                                },
                                Option::None => {},
                            }
                        }
                        pos = q + 1;
                    } else {
                        proof {
                            assert(parse_args_at(s@, pos as int) is None);
                        }
                        return Result::Err(ParseError { pos: q });
                    }
                },
            }
        }
    }
}

// ---------------------------------------------------------------------------
// Semantic validation.
// ---------------------------------------------------------------------------

/// True when every record's key is `before` or `after`.
pub open spec fn all_keys_known(rs: Seq<RawHookV>) -> bool {
    forall|i: int|
        0 <= i < rs.len() ==> rs[i].type_ == before_key() || rs[i].type_ == after_key()
}

/// Index of the first record whose key is neither `before` nor `after`
/// (meaningful only when such a record exists).
pub open spec fn first_unknown(rs: Seq<RawHookV>) -> int
    decreases rs.len(),
{
    if rs.len() == 0 {
        0
    } else if rs[0].type_ != before_key() && rs[0].type_ != after_key() {
        0
    } else {
        1 + first_unknown(rs.drop_first())
    }
}

/// The paths of the `before`-keyed records, in their order of appearance.
pub open spec fn before_paths(rs: Seq<RawHookV>) -> Seq<Seq<Seq<u8>>>
    decreases rs.len(),
{
    if rs.len() == 0 {
        Seq::empty()
    } else {
        before_paths(rs.drop_last()) + (if rs.last().type_ == before_key() {
            seq![rs.last().fn_path]
        } else {
            Seq::empty()
        })
    }
}

/// The paths of the `after`-keyed records, in their order of appearance.
pub open spec fn after_paths(rs: Seq<RawHookV>) -> Seq<Seq<Seq<u8>>>
    decreases rs.len(),
{
    if rs.len() == 0 {
        Seq::empty()
    } else {
        after_paths(rs.drop_last()) + (if rs.last().type_ == after_key() {
            seq![rs.last().fn_path]
        } else {
            Seq::empty()
        })
    }
}

/// The validated hook set denoted by a record list whose keys are all
/// known.
pub open spec fn validated(rs: Seq<RawHookV>) -> ArgsV {
    ArgsV { before: before_paths(rs), after: after_paths(rs) }
}

/// Each bucket is the order-preserving filter of the record list by its
/// key: within a bucket, hooks stand exactly in their relative order of
/// appearance in the argument list, duplicates included.
pub proof fn lemma_buckets_are_ordered_filters(rs: Seq<RawHookV>)
    ensures
        before_paths(rs) == rs.filter(|h: RawHookV| h.type_ == before_key()).map_values(
            |h: RawHookV| h.fn_path,
        ),
        after_paths(rs) == rs.filter(|h: RawHookV| h.type_ == after_key()).map_values(
            |h: RawHookV| h.fn_path,
        ),
    decreases rs.len(),
{
    reveal(Seq::filter);
    let keep_before = |h: RawHookV| h.type_ == before_key();
    let keep_after = |h: RawHookV| h.type_ == after_key();
    let to_path = |h: RawHookV| h.fn_path;
    if rs.len() == 0 {
        assert(before_paths(rs) =~= rs.filter(keep_before).map_values(to_path));
        assert(after_paths(rs) =~= rs.filter(keep_after).map_values(to_path));
    } else {
        lemma_buckets_are_ordered_filters(rs.drop_last());
        if keep_before(rs.last()) {
            assert(rs.filter(keep_before).map_values(to_path) =~= rs.drop_last().filter(
                keep_before,
            ).map_values(to_path) + seq![rs.last().fn_path]);
        }
        if keep_after(rs.last()) {
            assert(rs.filter(keep_after).map_values(to_path) =~= rs.drop_last().filter(
                keep_after,
            ).map_values(to_path) + seq![rs.last().fn_path]);
        }
        assert(before_paths(rs) =~= rs.filter(keep_before).map_values(to_path));
        assert(after_paths(rs) =~= rs.filter(keep_after).map_values(to_path));
    }
}


fn is_before_key(k: &[u8]) -> (r: bool)
    ensures
        r == (k@ == before_key()),
{
    let lit: Vec<u8> = vec![98u8, 101u8, 102u8, 111u8, 114u8, 101u8];
    bytes_is(k, Ghost(before_key()), lit.as_slice())
}

fn is_after_key(k: &[u8]) -> (r: bool)
    ensures
        r == (k@ == after_key()),
{
    let lit: Vec<u8> = vec![97u8, 102u8, 116u8, 101u8, 114u8];
    bytes_is(k, Ghost(after_key()), lit.as_slice())
}

proof fn lemma_first_unknown_at(rs: Seq<RawHookV>, i: int)
    requires
        0 <= i < rs.len(),
        forall|j: int|
            0 <= j < i ==> rs[j].type_ == before_key() || rs[j].type_ == after_key(),
        rs[i].type_ != before_key() && rs[i].type_ != after_key(),
    ensures
        first_unknown(rs) == i,
    decreases rs.len(),
{
    if i > 0 {
        assert(rs[0].type_ == before_key() || rs[0].type_ == after_key());
        lemma_first_unknown_at(rs.drop_first(), i - 1);
    }
}

proof fn lemma_paths_take_step(rs: Seq<RawHookV>, i: int)
    requires
        0 <= i < rs.len(),
    ensures
        before_paths(rs.take(i + 1)) == before_paths(rs.take(i)) + (if rs[i].type_
            == before_key() {
            seq![rs[i].fn_path]
        } else {
            Seq::<Seq<Seq<u8>>>::empty()
        }),
        after_paths(rs.take(i + 1)) == after_paths(rs.take(i)) + (if rs[i].type_ == after_key() {
            seq![rs[i].fn_path]
        } else {
            Seq::<Seq<Seq<u8>>>::empty()
        }),
{
    assert(rs.take(i + 1).drop_last() =~= rs.take(i));
    assert(rs.take(i + 1).last() == rs[i]);
}

impl RawArgs {
    /// Partitions the raw records into the `before` and `after` hook lists,
    /// preserving each bucket's relative order and keeping duplicates.
    /// Fails with an [`UnknownHookKeyError`] naming the first record whose
    /// key is neither `before` nor `after`; an unrecognized key is never
    /// silently dropped.
    #[verifier::loop_isolation(false)]
    pub fn validate(self) -> (r: Result<Args, UnknownHookKeyError>)
        ensures
            r is Ok <==> all_keys_known(self@),
            r matches Result::Ok(a) ==> a@ == validated(self@),
            r matches Result::Err(e) ==> {
                &&& e.index as int == first_unknown(self@)
                &&& e.index < self@.len()
                &&& e.key@ == self@[e.index as int].type_
                &&& e.key@ != before_key() && e.key@ != after_key()
            },
    {
        let ghost rs = self@;
        let mut vars = self.vars;
        let n0 = vars.len();
        let mut before: Vec<QualifiedPath> = Vec::new();
        let mut after: Vec<QualifiedPath> = Vec::new();
        let mut i: usize = 0;
        proof {
            assert(rs.take(0) =~= Seq::<RawHookV>::empty());
        }
        while vars.len() > 0
            invariant
                i + vars@.len() == n0 as int,
                i + vars@.len() == rs.len(),
                vars.deep_view() =~= rs.skip(i as int),
                forall|j: int|
                    0 <= j < i ==> rs[j].type_ == before_key() || rs[j].type_ == after_key(),
                before.deep_view() == before_paths(rs.take(i as int)),
                after.deep_view() == after_paths(rs.take(i as int)),
            decreases vars@.len(),
        {
            let ghost old_before = before.deep_view();
            let ghost old_after = after.deep_view();
            let ghost vdeep0 = vars.deep_view();
            let ghost vshallow0 = vars@;
            let h = vars.remove(0);
            proof {
                assert(h.deep_view() == vdeep0[0]);
                assert(h@ == rs[i as int]);
                assert forall|j: int| 0 <= j < vars.deep_view().len() implies vars.deep_view()[j]
                    == rs.skip(i as int + 1)[j] by {
                    assert(vars@[j] == vshallow0[j + 1]);
                    assert(vdeep0[j + 1] == rs.skip(i as int)[j + 1]);
                }
                assert(vars.deep_view() =~= rs.skip(i as int + 1));
            }
            let is_b = is_before_key(h.type_.as_slice());
            let is_a = is_after_key(h.type_.as_slice());
            if is_b {
                before.push(h.fn_path);
                proof {
                    assert(before.deep_view() =~= old_before.push(rs[i as int].fn_path));
                    lemma_paths_take_step(rs, i as int);
                    assert(old_before.push(rs[i as int].fn_path) =~= old_before + seq![
                        rs[i as int].fn_path,
                    ]);
                }
            } else if is_a {
                after.push(h.fn_path);
                proof {
                    assert(after.deep_view() =~= old_after.push(rs[i as int].fn_path));
                    lemma_paths_take_step(rs, i as int);
                    assert(old_after.push(rs[i as int].fn_path) =~= old_after + seq![
                        rs[i as int].fn_path,
                    ]);
                }
            } else {
                proof {
                    lemma_first_unknown_at(rs, i as int);
                }
                return Result::Err(UnknownHookKeyError { index: i, key: h.type_ });
            }
            proof {
                lemma_paths_take_step(rs, i as int);
                if rs[i as int].type_ == before_key() {
                    assert(after.deep_view() =~= after_paths(rs.take(i + 1 as int)));
                } else {
                    assert(before.deep_view() =~= before_paths(rs.take(i + 1 as int)));
                }
            }
            i += 1;
        }
        proof {
            assert(rs.take(i as int) =~= rs);
        }
        Result::Ok(Args { before, after })
    }
}

} // verus!
