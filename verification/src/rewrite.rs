//! The function rewriter of the hook-wrapping test decorator.
//!
//! A test function's declaration is modelled by [`TestFunctionDescriptor`]:
//! its annotations, its visibility and signature (opaque source text,
//! copied through unchanged), and its body as an ordered list of
//! statements.  Given a validated hook set, [`rewrite`] emits the
//! replacement declaration: it normalizes the test marker (adding the
//! canonical marker only when none is present, so the marker count never
//! grows past one) and wraps the original body between the ordered
//! `before` and `after` hook invocations.  [`test`] is the whole
//! transform — parse, validate, rewrite — and [`vanilla_test`] is the
//! marker-normalization-only variant.

use vstd::prelude::*;

use crate::hook_args::after_paths;
use crate::hook_args::all_keys_known;
use crate::hook_args::before_paths;
use crate::byteutil::bytes_is;
use crate::hook_args::first_unknown;
use crate::hook_args::parse_args;
use crate::hook_args::validated;
use crate::hook_args::Args;
use crate::hook_args::ArgsV;
use crate::hook_args::ParseError;
use crate::hook_args::QualifiedPath;
use crate::hook_args::RawArgs;
use crate::hook_args::RawHookV;
use crate::hook_args::UnknownHookKeyError;

verus! {

// ---------------------------------------------------------------------------
// Data model.
// ---------------------------------------------------------------------------

/// One annotation attached to a function declaration: the segments of its
/// path, plus any further tokens as opaque text.  The rewriter only ever
/// inspects whether the path's last segment is the test-marker name; every
/// other annotation is copied through untouched.
#[derive(Debug, Clone, PartialEq, Eq)]
pub struct Annotation {
    pub segments: Vec<Vec<u8>>,
    pub rest: Vec<u8>,
}

/// The mathematical value of an [`Annotation`].
#[verifier::ext_equal]
pub ghost struct AnnotationV {
    pub segments: Seq<Seq<u8>>,
    pub rest: Seq<u8>,
}

impl View for Annotation {
    type V = AnnotationV;

    open spec fn view(&self) -> AnnotationV {
        AnnotationV { segments: self.segments.deep_view(), rest: self.rest@ }
    }
}

impl DeepView for Annotation {
    type V = AnnotationV;

    open spec fn deep_view(&self) -> AnnotationV {
        self@
    }
}

/// One statement of a function body: either an inserted zero-argument hook
/// invocation, or a statement of the original body carried through as
/// opaque source text.
#[derive(Debug, Clone, PartialEq, Eq)]
pub enum Stmt {
    HookCall(QualifiedPath),
    Verbatim(Vec<u8>),
}

/// The mathematical value of a [`Stmt`].
#[verifier::ext_equal]
pub ghost enum StmtV {
    HookCall(Seq<Seq<u8>>),
    Verbatim(Seq<u8>),
}

impl View for Stmt {
    type V = StmtV;

    open spec fn view(&self) -> StmtV {
        match self {
            Stmt::HookCall(p) => StmtV::HookCall(p.deep_view()),
            Stmt::Verbatim(t) => StmtV::Verbatim(t@),
        }
    }
}

impl DeepView for Stmt {
    type V = StmtV;

    open spec fn deep_view(&self) -> StmtV {
        self@
    }
}

/// The parsed source of an annotated test function: its annotations, its
/// visibility and signature as opaque text, and its body statements.
#[derive(Debug, Clone, PartialEq, Eq)]
pub struct TestFunctionDescriptor {
    pub attrs: Vec<Annotation>,
    pub vis: Vec<u8>,
    pub sig: Vec<u8>,
    pub body: Vec<Stmt>,
}

/// The mathematical value of a [`TestFunctionDescriptor`].
#[verifier::ext_equal]
pub ghost struct TestFunctionDescriptorV {
    pub attrs: Seq<AnnotationV>,
    pub vis: Seq<u8>,
    pub sig: Seq<u8>,
    pub body: Seq<StmtV>,
}

impl View for TestFunctionDescriptor {
    type V = TestFunctionDescriptorV;

    open spec fn view(&self) -> TestFunctionDescriptorV {
        TestFunctionDescriptorV {
            attrs: self.attrs.deep_view(),
            vis: self.vis@,
            sig: self.sig@,
            body: self.body.deep_view(),
        }
    }
}

/// Why a transform failed: the argument text did not match the grammar, or
/// a key other than `before`/`after` appeared.  (A third build-time failure
/// of the decorator — an annotated item that cannot be parsed into a
/// [`TestFunctionDescriptor`] at all — arises in the front end that builds
/// the descriptor, before the transform is reached.)
#[derive(Debug, Clone, PartialEq, Eq)]
pub enum TransformError {
    Parse(ParseError),
    UnknownHookKey(UnknownHookKeyError),
}

// ---------------------------------------------------------------------------
// Marker normalization.
// ---------------------------------------------------------------------------

/// The bytes of the test-marker name, `test`.
pub open spec fn test_marker_name() -> Seq<u8> {
    seq![116u8, 101u8, 115u8, 116u8]
}

/// True when the annotation's simple name (its path's last segment) is the
/// test-marker name.
pub open spec fn is_test_marker(a: AnnotationV) -> bool {
    a.segments.len() > 0 && a.segments.last() == test_marker_name()
}

/// True when some annotation in the list is a test marker.
pub open spec fn has_test_marker(attrs: Seq<AnnotationV>) -> bool {
    exists|i: int| 0 <= i < attrs.len() && is_test_marker(#[trigger] attrs[i])
}

/// How many annotations in the list are test markers.
pub open spec fn marker_count(attrs: Seq<AnnotationV>) -> nat
    decreases attrs.len(),
{
    if attrs.len() == 0 {
        0
    } else {
        marker_count(attrs.drop_last()) + (if is_test_marker(attrs.last()) {
            1nat
        } else {
            0nat
        })
    }
}

/// The canonical test marker inserted by the hook-wrapping decorator:
/// `core::prelude::v1::test`, with no further tokens.
pub open spec fn canonical_test_marker() -> AnnotationV {
    AnnotationV {
        segments: seq![
            seq![99u8, 111u8, 114u8, 101u8],
            seq![112u8, 114u8, 101u8, 108u8, 117u8, 100u8, 101u8],
            seq![118u8, 49u8],
            seq![116u8, 101u8, 115u8, 116u8],
        ],
        rest: Seq::empty(),
    }
}

/// The attribute list after marker normalization: unchanged when a test
/// marker is already present, otherwise with the canonical marker
/// prepended.
pub open spec fn normalized_attrs(attrs: Seq<AnnotationV>) -> Seq<AnnotationV> {
    if has_test_marker(attrs) {
        attrs
    } else {
        seq![canonical_test_marker()] + attrs
    }
}

/// Decides whether an annotation is a test marker: its path's last segment
/// is `test`.
pub fn is_test_attribute(attr: &Annotation) -> (r: bool)
    ensures
        r == is_test_marker(attr@),
{
    let n = attr.segments.len();
    if n == 0 {
        return false;
    }
    let lit: Vec<u8> = vec![116u8, 101u8, 115u8, 116u8];
    let r = bytes_is(attr.segments[n - 1].as_slice(), Ghost(test_marker_name()), lit.as_slice());
    proof {
        let x = attr.segments@[n - 1 as int];
        assert(x.deep_view() =~= x@);
        assert(attr@.segments.last() == x.deep_view());
    }
    r
}

fn canonical_marker() -> (r: Annotation)
    ensures
        r@ == canonical_test_marker(),
{
    let mut segments: Vec<Vec<u8>> = Vec::new();
    segments.push(vec![99u8, 111u8, 114u8, 101u8]);
    segments.push(vec![112u8, 114u8, 101u8, 108u8, 117u8, 100u8, 101u8]);
    segments.push(vec![118u8, 49u8]);
    segments.push(vec![116u8, 101u8, 115u8, 116u8]);
    let r = Annotation { segments, rest: Vec::new() };
    proof {
        assert(r@.segments =~~= canonical_test_marker().segments);
        assert(r@.rest =~= canonical_test_marker().rest);
        assert(r@ =~= canonical_test_marker());
    }
    r
}

#[verifier::loop_isolation(false)]
fn has_marker(attrs: &Vec<Annotation>) -> (r: bool)
    ensures
        r == has_test_marker(attrs.deep_view()),
{
    let mut i: usize = 0;
    let mut found = false;
    while i < attrs.len()
        invariant
            i <= attrs@.len(),
            found == exists|j: int|
                0 <= j < i && is_test_marker(#[trigger] attrs.deep_view()[j]),
        decreases attrs@.len() - i,
    {
        let marked = is_test_attribute(&attrs[i]);
        proof {
            assert(attrs.deep_view()[i as int] == attrs@[i as int]@);
        }
        if marked {
            found = true;
        }
        i += 1;
    }
    found
}

/// Normalizes an attribute list against a test marker: the list is kept
/// unchanged when some annotation already is a test marker; otherwise the
/// canonical marker is prepended.
#[verifier::loop_isolation(false)]
fn normalize_attrs(attrs: Vec<Annotation>) -> (r: Vec<Annotation>)
    ensures
        r.deep_view() == normalized_attrs(attrs.deep_view()),
{
    let has = has_marker(&attrs);
    if has {
        attrs
    } else {
        let mut out = attrs;
        let ghost old_attrs = out.deep_view();
        let marker = canonical_marker();
        out.insert(0, marker);
        proof {
            assert(out.deep_view() =~~= seq![canonical_test_marker()] + old_attrs);
        }
        out
    }
}

// ---------------------------------------------------------------------------
// Body wrapping and the whole rewriter.
// ---------------------------------------------------------------------------

/// The hook-invocation statements for an ordered list of hook paths.
pub open spec fn hook_stmts(ps: Seq<Seq<Seq<u8>>>) -> Seq<StmtV> {
    ps.map_values(|p: Seq<Seq<u8>>| StmtV::HookCall(p))
}

/// The declaration emitted for a descriptor and a validated hook set:
/// marker-normalized attributes; visibility and signature copied through;
/// and the body wrapped as `before` hook calls, then the original
/// statements unchanged and in order, then `after` hook calls.
pub open spec fn rewritten(d: TestFunctionDescriptorV, hooks: ArgsV) -> TestFunctionDescriptorV {
    TestFunctionDescriptorV {
        attrs: normalized_attrs(d.attrs),
        vis: d.vis,
        sig: d.sig,
        body: hook_stmts(hooks.before) + d.body + hook_stmts(hooks.after),
    }
}

#[verifier::loop_isolation(false)]
fn push_hook_calls(out: &mut Vec<Stmt>, hooks: Vec<QualifiedPath>)
    ensures
        final(out).deep_view() == old(out).deep_view() + hook_stmts(hooks.deep_view()),
{
    let ghost base = out.deep_view();
    let ghost all = hooks.deep_view();
    let mut rest = hooks;
    let n0 = rest.len();
    let mut i: usize = 0;
    while rest.len() > 0
        invariant
            i + rest@.len() == n0 as int,
            i + rest@.len() == all.len(),
            rest.deep_view() =~= all.skip(i as int),
            out.deep_view() == base + hook_stmts(all.take(i as int)),
        decreases rest@.len(),
    {
        let ghost rdeep0 = rest.deep_view();
        let ghost rshallow0 = rest@;
        let p = rest.remove(0);
        proof {
            assert(p.deep_view() == rdeep0[0]);
            assert forall|j: int| 0 <= j < rest.deep_view().len() implies rest.deep_view()[j]
                == all.skip(i as int + 1)[j] by {
                assert(rest@[j] == rshallow0[j + 1]);
                assert(rdeep0[j + 1] == all.skip(i as int)[j + 1]);
            }
            assert(rest.deep_view() =~= all.skip(i as int + 1));
        }
        let ghost out0 = out.deep_view();
        out.push(Stmt::HookCall(p));
        proof {
            assert(out.deep_view() =~~= out0.push(StmtV::HookCall(all[i as int])));
            assert(all.take(i as int + 1).drop_last() =~= all.take(i as int));
            assert(hook_stmts(all.take(i as int + 1)) =~= hook_stmts(all.take(i as int)).push(
                StmtV::HookCall(all[i as int]),
            ));
            assert(base + hook_stmts(all.take(i as int + 1)) =~= (base + hook_stmts(
                all.take(i as int),
            )).push(StmtV::HookCall(all[i as int])));
        }
        i += 1;
    }
    proof {
        assert(all.take(i as int) =~= all);
    }
}

/// Emits the replacement declaration for one annotated test function:
/// normalizes the test marker and wraps the body with the ordered hook
/// invocations.  Visibility, signature, and every annotation other than
/// the inserted marker are copied through unchanged; the original body
/// statements stand between the `before` and `after` calls, unchanged and
/// in their original order.
pub fn rewrite(d: TestFunctionDescriptor, hooks: Args) -> (r: TestFunctionDescriptor)
    ensures
        r@ == rewritten(d@, hooks@),
{
    let ghost dv = d@;
    let ghost hv = hooks@;
    let TestFunctionDescriptor { attrs, vis, sig, body } = d;
    let attrs = normalize_attrs(attrs);
    let mut new_body: Vec<Stmt> = Vec::new();
    push_hook_calls(&mut new_body, hooks.before);
    let mut original = body;
    let ghost mid = new_body.deep_view();
    new_body.append(&mut original);
    proof {
        assert(new_body.deep_view() =~~= mid + dv.body);
    }
    push_hook_calls(&mut new_body, hooks.after);
    let r = TestFunctionDescriptor { attrs, vis, sig, body: new_body };
    proof {
        assert(r@.body =~= hook_stmts(hv.before) + dv.body + hook_stmts(hv.after));
        assert(r@ =~= rewritten(dv, hv));
    }
    r
}

// ---------------------------------------------------------------------------
// The whole transform, and the marker-only variant.
// ---------------------------------------------------------------------------

/// The hook-wrapping test decorator: parses the decorator's argument text,
/// validates the hook keys, and rewrites the annotated function.  Returns
/// the replacement declaration, or the first error: a [`ParseError`] when
/// the argument text does not match the grammar, an [`UnknownHookKeyError`]
/// when a key other than `before`/`after` appears (never silently
/// dropped).  On success the emitted declaration is exactly
/// [`rewritten`]`(input, hooks)` for the validated hook set.
pub fn test(args: &[u8], input: TestFunctionDescriptor) -> (r: Result<
    TestFunctionDescriptor,
    TransformError,
>)
    ensures
        match r {
            Result::Ok(out) => {
                &&& parse_args(args@) matches Option::Some(rs) && all_keys_known(rs) && out@
                    == rewritten(input@, validated(rs))
            },
            Result::Err(TransformError::Parse(_)) => parse_args(args@) is None,
            Result::Err(TransformError::UnknownHookKey(e)) => {
                &&& parse_args(args@) matches Option::Some(rs) && !all_keys_known(rs) && e.index
                    as int == first_unknown(rs) && e.index < rs.len() && e.key@ == rs[
                    e.index as int
                ].type_
            },
        },
{
    let raw = match RawArgs::parse(args) {
        Result::Ok(raw) => raw,
        Result::Err(e) => {
            return Result::Err(TransformError::Parse(e));
        },
    };
    let hooks = match raw.validate() {
        Result::Ok(hooks) => hooks,
        Result::Err(e) => {
            return Result::Err(TransformError::UnknownHookKey(e));
        },
    };
    Result::Ok(rewrite(input, hooks))
}

/// The marker-normalization-only decorator: emits the function unchanged
/// when a test marker is already present, and otherwise the same function
/// with the canonical marker prepended to its annotations.
pub fn vanilla_test(input: TestFunctionDescriptor) -> (r: TestFunctionDescriptor)
    ensures
        r@.attrs == normalized_attrs(input@.attrs),
        r@.vis == input@.vis,
        r@.sig == input@.sig,
        r@.body == input@.body,
        has_test_marker(input@.attrs) ==> r@ == input@,
{
    let ghost dv = input@;
    let TestFunctionDescriptor { attrs, vis, sig, body } = input;
    let attrs = normalize_attrs(attrs);
    let r = TestFunctionDescriptor { attrs, vis, sig, body };
    proof {
        if has_test_marker(dv.attrs) {
            assert(r@ =~= dv);
        }
    }
    r
}

// ---------------------------------------------------------------------------
// Laws.
// ---------------------------------------------------------------------------

proof fn lemma_marker_count_pos(attrs: Seq<AnnotationV>)
    ensures
        marker_count(attrs) > 0 <==> has_test_marker(attrs),
    decreases attrs.len(),
{
    if attrs.len() > 0 {
        lemma_marker_count_pos(attrs.drop_last());
        if is_test_marker(attrs.last()) {
            assert(is_test_marker(attrs[attrs.len() - 1]));
        } else {
            if has_test_marker(attrs) {
                let i = choose|i: int| 0 <= i < attrs.len() && is_test_marker(#[trigger] attrs[i]);
                assert(attrs.drop_last()[i] == attrs[i]);
            }
            if has_test_marker(attrs.drop_last()) {
                let i = choose|i: int|
                    0 <= i < attrs.drop_last().len() && is_test_marker(
                        #[trigger] attrs.drop_last()[i],
                    );
                assert(attrs[i] == attrs.drop_last()[i]);
            }
        }
    }
}

proof fn lemma_marker_count_prepend(a: AnnotationV, attrs: Seq<AnnotationV>)
    ensures
        marker_count(seq![a] + attrs) == marker_count(seq![a]) + marker_count(attrs),
    decreases attrs.len(),
{
    if attrs.len() == 0 {
        assert(seq![a] + attrs =~= seq![a]);
    } else {
        assert((seq![a] + attrs).drop_last() =~= seq![a] + attrs.drop_last());
        assert((seq![a] + attrs).last() == attrs.last());
        lemma_marker_count_prepend(a, attrs.drop_last());
    }
}

/// Idempotent marker insertion: a declaration already carrying the test
/// marker keeps its attribute list unchanged, so a declaration carrying
/// exactly one marker still carries exactly one after the rewrite; a
/// declaration carrying none gains exactly one; and rewriting an already
/// rewritten declaration never adds a second marker.
pub proof fn lemma_marker_idempotent(d: TestFunctionDescriptorV, hooks: ArgsV)
    ensures
        has_test_marker(d.attrs) ==> rewritten(d, hooks).attrs == d.attrs,
        marker_count(d.attrs) == 1 ==> marker_count(rewritten(d, hooks).attrs) == 1,
        !has_test_marker(d.attrs) ==> marker_count(rewritten(d, hooks).attrs) == marker_count(
            d.attrs,
        ) + 1,
        has_test_marker(rewritten(d, hooks).attrs),
        forall|hooks2: ArgsV|
            (#[trigger] rewritten(rewritten(d, hooks), hooks2)).attrs == rewritten(d, hooks).attrs,
{
    lemma_marker_count_pos(d.attrs);
    if !has_test_marker(d.attrs) {
        lemma_marker_count_prepend(canonical_test_marker(), d.attrs);
        assert(canonical_test_marker().segments.last() == test_marker_name());
        assert(is_test_marker(canonical_test_marker()));
        let out = seq![canonical_test_marker()] + d.attrs;
        assert(out[0] == canonical_test_marker());
        assert(marker_count(seq![canonical_test_marker()]) == 1) by {
            assert(seq![canonical_test_marker()].drop_last()
                =~= Seq::<AnnotationV>::empty());
            assert(seq![canonical_test_marker()].last() == canonical_test_marker());
            assert(marker_count(Seq::<AnnotationV>::empty()) == 0);
        }
    }
    lemma_marker_count_pos(rewritten(d, hooks).attrs);
}

/// Hook ordering preserved, and the body preserved verbatim: for any
/// record list whose keys are all known, the emitted body is exactly the
/// `before` hook calls in their order of appearance, then the original
/// statements unchanged and in order, then the `after` hook calls in their
/// order of appearance — whatever mix of keys the argument list used.
pub proof fn lemma_hook_order_and_body(d: TestFunctionDescriptorV, rs: Seq<RawHookV>)
    requires
        all_keys_known(rs),
    ensures
        ({
            let hooks = validated(rs);
            let b = rewritten(d, hooks).body;
            let nb = before_paths(rs).len() as int;
            let no = d.body.len() as int;
            &&& hooks.before == before_paths(rs)
            &&& hooks.after == after_paths(rs)
            &&& b.len() == nb + no + after_paths(rs).len()
            &&& forall|i: int|
                0 <= i < nb ==> b[i] == StmtV::HookCall(#[trigger] before_paths(rs)[i])
            &&& b.subrange(nb, nb + no) == d.body
            &&& forall|i: int|
                0 <= i < after_paths(rs).len() ==> b[nb + no + i] == StmtV::HookCall(
                    #[trigger] after_paths(rs)[i],
                )
        }),
{
    let hooks = validated(rs);
    let b = rewritten(d, hooks).body;
    let nb = before_paths(rs).len() as int;
    let no = d.body.len() as int;
    assert(b.subrange(nb, nb + no) =~= d.body);
}

/// Body preserved verbatim: whatever the hook configuration, the emitted
/// body's middle segment is exactly the original body, same statements in
/// the same order.
pub proof fn lemma_body_preserved(d: TestFunctionDescriptorV, hooks: ArgsV)
    ensures
        rewritten(d, hooks).body.subrange(
            hooks.before.len() as int,
            hooks.before.len() + d.body.len() as int,
        ) == d.body,
        rewritten(d, hooks).body.len() == hooks.before.len() + d.body.len() + hooks.after.len(),
{
    assert(rewritten(d, hooks).body.subrange(
        hooks.before.len() as int,
        hooks.before.len() + d.body.len() as int,
    ) =~= d.body);
}

/// Empty hooks is a no-op wrap: with both hook lists empty the emitted
/// declaration differs from the original only by marker normalization —
/// the body, visibility and signature are untouched, and a declaration
/// already carrying the marker is returned whole and unchanged.
pub proof fn lemma_empty_hooks_noop(d: TestFunctionDescriptorV)
    ensures
        ({
            let out = rewritten(d, (ArgsV { before: Seq::empty(), after: Seq::empty() }));
            &&& out.body == d.body
            &&& out.vis == d.vis
            &&& out.sig == d.sig
            &&& out.attrs == normalized_attrs(d.attrs)
            &&& has_test_marker(d.attrs) ==> out == d
        }),
{
    let hooks = ArgsV { before: Seq::empty(), after: Seq::empty() };
    let out = rewritten(d, hooks);
    assert(hook_stmts(hooks.before) =~= Seq::<StmtV>::empty());
    assert(hook_stmts(hooks.after) =~= Seq::<StmtV>::empty());
    assert(out.body =~= d.body);
    if has_test_marker(d.attrs) {
        assert(out =~= d);
    }
}

/// Empty argument text is a no-op wrap, through the whole pipeline: the
/// empty (or all-whitespace) argument list parses to no records, both hook
/// buckets come out empty, and the emitted declaration differs from the
/// original only by marker normalization.
pub proof fn lemma_empty_args_noop(s: Seq<u8>, d: TestFunctionDescriptorV)
    requires
        crate::hook_args::skip_ws_at(s, 0) >= s.len(),
    ensures
        parse_args(s) == Option::Some(Seq::<RawHookV>::empty()),
        all_keys_known(Seq::<RawHookV>::empty()),
        ({
            let out = rewritten(d, validated(Seq::<RawHookV>::empty()));
            &&& out.body == d.body
            &&& out.vis == d.vis
            &&& out.sig == d.sig
            &&& out.attrs == normalized_attrs(d.attrs)
            &&& has_test_marker(d.attrs) ==> out == d
        }),
{
    assert(validated(Seq::<RawHookV>::empty()).before =~= Seq::<Seq<Seq<u8>>>::empty());
    assert(validated(Seq::<RawHookV>::empty()).after =~= Seq::<Seq<Seq<u8>>>::empty());
    assert(validated(Seq::<RawHookV>::empty()) =~~= (ArgsV {
        before: Seq::empty(),
        after: Seq::empty(),
    }));
    lemma_empty_hooks_noop(d);
}

} // verus!


