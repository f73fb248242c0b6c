use vstd::prelude::*;

use crate::cursor::{CursorView, LexicalLayoutCursor};
use crate::draganddrop::{contains_input, contains_processor};
use crate::soundinput::SoundInputId;
use crate::soundprocessor::SoundProcessorId;

verus! {

/// Identifies one of the expressions of a sound processor.
#[derive(Debug, Copy, Clone, PartialEq, Eq, Structural, Hash)]
pub struct ProcessorExpressionId(pub usize);

/// An expression of a sound processor: the processor and which of its
/// expressions.
#[derive(Debug, Copy, Clone, PartialEq, Eq, Structural)]
pub struct ProcessorExpressionLocation {
    pub processor: SoundProcessorId,
    pub expression: ProcessorExpressionId,
}

impl ProcessorExpressionLocation {
    /// The expression `expression` of the processor `processor`.
    pub fn new(processor: SoundProcessorId, expression: ProcessorExpressionId) -> (l:
        ProcessorExpressionLocation)
        ensures
            l.processor == processor,
            l.expression == expression,
    {
        ProcessorExpressionLocation { processor, expression }
    }

    /// The processor the expression belongs to.
    pub fn processor(&self) -> (p: SoundProcessorId)
        ensures
            p == self.processor,
    {
        self.processor
    }

    /// Which of the processor's expressions it is.
    pub fn expression(&self) -> (e: ProcessorExpressionId)
        ensures
            e == self.expression,
    {
        self.expression
    }
}

/// The directions in which the keyboard focus may move, or was asked to
/// move: up, down, into the focused object and out of it.
#[derive(Debug, Copy, Clone, PartialEq, Eq, Structural)]
pub struct DirectionsToGo {
    pub go_up: bool,
    pub go_down: bool,
    pub go_in: bool,
    pub go_out: bool,
}

impl DirectionsToGo {
    /// No direction at all.
    pub fn nowhere() -> (d: DirectionsToGo)
        ensures
            d == (DirectionsToGo { go_up: false, go_down: false, go_in: false, go_out: false }),
    {
        DirectionsToGo { go_up: false, go_down: false, go_in: false, go_out: false }
    }
}

/// Where the keyboard focus of the graph editor is.
pub enum KeyboardNavInteraction {
    AroundSoundProcessor(SoundProcessorId),
    AroundProcessorPlug(SoundProcessorId),
    AroundInputSocket(SoundInputId),
    AroundExpression(ProcessorExpressionLocation),
    /// Editing an expression, with the cursor of its lexical layout.
    InsideExpression(ProcessorExpressionLocation, LexicalLayoutCursor),
}

/// The model of a keyboard focus: the cursor by its view.
pub enum NavFocus {
    AroundSoundProcessor(SoundProcessorId),
    AroundProcessorPlug(SoundProcessorId),
    AroundInputSocket(SoundInputId),
    AroundExpression(ProcessorExpressionLocation),
    InsideExpression(ProcessorExpressionLocation, CursorView),
}

impl View for KeyboardNavInteraction {
    type V = NavFocus;

    open spec fn view(&self) -> NavFocus {
        match self {
            KeyboardNavInteraction::AroundSoundProcessor(p) => NavFocus::AroundSoundProcessor(*p),
            KeyboardNavInteraction::AroundProcessorPlug(p) => NavFocus::AroundProcessorPlug(*p),
            KeyboardNavInteraction::AroundInputSocket(i) => NavFocus::AroundInputSocket(*i),
            KeyboardNavInteraction::AroundExpression(e) => NavFocus::AroundExpression(*e),
            KeyboardNavInteraction::InsideExpression(e, c) => NavFocus::InsideExpression(*e, c@),
        }
    }
}

/// What the graph and its layout say around the focused object.
pub struct NavContext {
    /// The sound inputs, in order, of the focused processor, or of the
    /// processor that owns the focused input socket.
    pub inputs: Vec<SoundInputId>,
    /// The processor that owns the focused input socket.
    pub owner: SoundProcessorId,
    /// Every expression shown in the editor, in the order of the layout.
    pub expressions: Vec<ProcessorExpressionLocation>,
    /// The processor just above, in its stacked group, the one that owns
    /// the focused input socket.
    pub processor_above: Option<SoundProcessorId>,
    /// The processor just below the focused plug in its stacked group.
    pub processor_below: Option<SoundProcessorId>,
    /// The sound inputs, in order, of that processor below.
    pub inputs_below: Vec<SoundInputId>,
    /// The processor that owns the focused input socket heads its group.
    pub is_top_of_group: bool,
}

/// The object the focus is on is among the processors `ps` and inputs
/// `is` of the graph; for an expression, its processor is.
pub open spec fn focus_is_valid(f: NavFocus, ps: Seq<SoundProcessorId>, is: Seq<SoundInputId>) -> bool {
    match f {
        NavFocus::AroundSoundProcessor(p) => ps.contains(p),
        NavFocus::AroundProcessorPlug(p) => ps.contains(p),
        NavFocus::AroundInputSocket(i) => is.contains(i),
        NavFocus::AroundExpression(e) => ps.contains(e.processor),
        NavFocus::InsideExpression(e, _) => ps.contains(e.processor),
    }
}

/// The expressions of `s` that belong to processor `p`, in order.
pub open spec fn expressions_of(s: Seq<ProcessorExpressionLocation>, p: SoundProcessorId) -> Seq<
    ProcessorExpressionLocation,
> {
    s.filter(|l: ProcessorExpressionLocation| l.processor == p)
}

/// `k` is the first position of `x` in `s`.
pub open spec fn is_first_position<A>(s: Seq<A>, x: A, k: int) -> bool {
    0 <= k < s.len() && s[k] == x && forall|j: int| 0 <= j < k ==> s[j] != x
}

/// The first position of `x` in `s`, where `s` holds it.
pub open spec fn first_position<A>(s: Seq<A>, x: A) -> int {
    choose|k: int| is_first_position(s, x, k)
}

/// The directions in which the focus `f` may move.
pub open spec fn allowed_directions_spec(f: NavFocus, ctx: NavContext) -> DirectionsToGo {
    match f {
        NavFocus::AroundSoundProcessor(p) => DirectionsToGo {
            go_up: ctx.inputs@.len() > 0,
            go_down: true,
            go_in: expressions_of(ctx.expressions@, p).len() > 0,
            go_out: false,
        },
        NavFocus::AroundProcessorPlug(_) => DirectionsToGo {
            go_up: true,
            go_down: ctx.processor_below is Some,
            go_in: false,
            go_out: false,
        },
        NavFocus::AroundInputSocket(i) => DirectionsToGo {
            go_up: first_position(ctx.inputs@, i) > 0 || !ctx.is_top_of_group,
            go_down: true,
            go_in: false,
            go_out: false,
        },
        NavFocus::AroundExpression(e) => DirectionsToGo {
            go_up: first_position(expressions_of(ctx.expressions@, e.processor), e) > 0,
            go_down: first_position(expressions_of(ctx.expressions@, e.processor), e) + 1
                < expressions_of(ctx.expressions@, e.processor).len(),
            go_in: true,
            go_out: true,
        },
        NavFocus::InsideExpression(_, _) => DirectionsToGo {
            go_up: false,
            go_down: false,
            go_in: false,
            go_out: true,
        },
    }
}

/// Where the focus `f` moves when the directions `r` are asked for: the
/// first of up, down, in and out that is asked for decides.
pub open spec fn next_focus(f: NavFocus, r: DirectionsToGo, ctx: NavContext) -> NavFocus {
    match f {
        NavFocus::AroundSoundProcessor(p) => if r.go_up {
            if ctx.inputs@.len() > 0 {
                NavFocus::AroundInputSocket(ctx.inputs@.last())
            } else {
                f
            }
        } else if r.go_down {
            NavFocus::AroundProcessorPlug(p)
        } else if r.go_in {
            if expressions_of(ctx.expressions@, p).len() > 0 {
                NavFocus::AroundExpression(expressions_of(ctx.expressions@, p)[0])
            } else {
                f
            }
        } else {
            f
        },
        NavFocus::AroundProcessorPlug(p) => if r.go_up {
            NavFocus::AroundSoundProcessor(p)
        } else if r.go_down {
            if ctx.processor_below is Some {
                NavFocus::AroundInputSocket(ctx.inputs_below@[0])
            } else {
                f
            }
        } else {
            f
        },
        NavFocus::AroundInputSocket(i) => {
            let k = first_position(ctx.inputs@, i);
            if r.go_up {
                if k == 0 {
                    match ctx.processor_above {
                        Some(a) => NavFocus::AroundProcessorPlug(a),
                        None => f,
                    }
                } else {
                    NavFocus::AroundInputSocket(ctx.inputs@[k - 1])
                }
            } else if r.go_down {
                if k + 1 == ctx.inputs@.len() {
                    NavFocus::AroundSoundProcessor(ctx.owner)
                } else {
                    NavFocus::AroundInputSocket(ctx.inputs@[k + 1])
                }
            } else {
                f
            }
        },
        NavFocus::AroundExpression(e) => {
            let others = expressions_of(ctx.expressions@, e.processor);
            let k = first_position(others, e);
            if r.go_up {
                if k > 0 {
                    NavFocus::AroundExpression(others[k - 1])
                } else {
                    f
                }
            } else if r.go_down {
                if k + 1 < others.len() {
                    NavFocus::AroundExpression(others[k + 1])
                } else {
                    f
                }
            } else if r.go_in {
                NavFocus::InsideExpression(e, CursorView::AtFinalExpression(Seq::empty()))
            } else if r.go_out {
                NavFocus::AroundSoundProcessor(e.processor)
            } else {
                f
            }
        },
        NavFocus::InsideExpression(e, _) => if r.go_out {
            NavFocus::AroundExpression(e)
        } else {
            f
        },
    }
}

/// The focused object is described by the context: a focused input socket
/// is among the inputs, a focused expression among the expressions.
pub open spec fn focus_in_context(f: NavFocus, ctx: NavContext) -> bool {
    match f {
        NavFocus::AroundInputSocket(i) => ctx.inputs@.contains(i),
        NavFocus::AroundExpression(e) => expressions_of(ctx.expressions@, e.processor).contains(e),
        _ => true,
    }
}

/// What moving the focus `f` by `r` needs of the context: the focused
/// object is described by it, and a processor below a plug that the focus
/// moves down from has an input.
pub open spec fn nav_context_fits(f: NavFocus, r: DirectionsToGo, ctx: NavContext) -> bool {
    &&& focus_in_context(f, ctx)
    &&& match f {
        NavFocus::AroundProcessorPlug(_) => !r.go_up && r.go_down && ctx.processor_below is Some
            ==> ctx.inputs_below@.len() > 0,
        _ => true,
    }
}

/// Only one direction, `d`: 0 up, 1 down, 2 in, 3 out.
pub open spec fn only(d: int) -> DirectionsToGo {
    DirectionsToGo { go_up: d == 0, go_down: d == 1, go_in: d == 2, go_out: d == 3 }
}

/// From a processor, going down to its plug and then up comes back to the
/// processor.
pub proof fn law_processor_down_then_up(p: SoundProcessorId, ctx: NavContext)
    ensures
        next_focus(next_focus(NavFocus::AroundSoundProcessor(p), only(1), ctx), only(0), ctx)
            == NavFocus::AroundSoundProcessor(p),
{
}

/// From an expression, going in and then out comes back to the expression.
pub proof fn law_expression_in_then_out(e: ProcessorExpressionLocation, ctx: NavContext)
    ensures
        next_focus(next_focus(NavFocus::AroundExpression(e), only(2), ctx), only(3), ctx)
            == NavFocus::AroundExpression(e),
{
}

/// Among inputs that occur once each, going down from an input socket that
/// is not the last and then up comes back to it, and so does going up from
/// one that is not the first and then down.
pub proof fn law_socket_down_then_up(i: SoundInputId, ctx: NavContext)
    requires
        ctx.inputs@.no_duplicates(),
        ctx.inputs@.contains(i),
    ensures
        first_position(ctx.inputs@, i) + 1 < ctx.inputs@.len() ==> next_focus(
            next_focus(NavFocus::AroundInputSocket(i), only(1), ctx),
            only(0),
            ctx,
        ) == NavFocus::AroundInputSocket(i),
        first_position(ctx.inputs@, i) > 0 ==> next_focus(
            next_focus(NavFocus::AroundInputSocket(i), only(0), ctx),
            only(1),
            ctx,
        ) == NavFocus::AroundInputSocket(i),
{
    let s = ctx.inputs@;
    lemma_first_position(s, i);
    let k = first_position(s, i);
    if k + 1 < s.len() {
        let n = s[k + 1];
        assert(is_first_position(s, n, k + 1));
        lemma_first_position(s, n);
    }
    if k > 0 {
        let n = s[k - 1];
        assert(is_first_position(s, n, k - 1));
        lemma_first_position(s, n);
    }
}

/// Among expressions that occur once each, going down from an expression
/// that is not the last of its processor and then up comes back to it, and
/// so does going up from one that is not the first and then down.
pub proof fn law_expression_down_then_up(e: ProcessorExpressionLocation, ctx: NavContext)
    requires
        ctx.expressions@.no_duplicates(),
        expressions_of(ctx.expressions@, e.processor).contains(e),
    ensures
        first_position(expressions_of(ctx.expressions@, e.processor), e) + 1 < expressions_of(
            ctx.expressions@,
            e.processor,
        ).len() ==> next_focus(
            next_focus(NavFocus::AroundExpression(e), only(1), ctx),
            only(0),
            ctx,
        ) == NavFocus::AroundExpression(e),
        first_position(expressions_of(ctx.expressions@, e.processor), e) > 0 ==> next_focus(
            next_focus(NavFocus::AroundExpression(e), only(0), ctx),
            only(1),
            ctx,
        ) == NavFocus::AroundExpression(e),
{
    let all = ctx.expressions@;
    let s = expressions_of(all, e.processor);
    lemma_filter_no_duplicates(all, e.processor);
    lemma_first_position(s, e);
    let k = first_position(s, e);
    all.lemma_filter_pred(|l: ProcessorExpressionLocation| l.processor == e.processor, k);
    if k + 1 < s.len() {
        let n = s[k + 1];
        all.lemma_filter_pred(|l: ProcessorExpressionLocation| l.processor == e.processor, k + 1);
        assert(n.processor == e.processor);
        assert(is_first_position(s, n, k + 1));
        lemma_first_position(s, n);
    }
    if k > 0 {
        let n = s[k - 1];
        all.lemma_filter_pred(|l: ProcessorExpressionLocation| l.processor == e.processor, k - 1);
        assert(n.processor == e.processor);
        assert(is_first_position(s, n, k - 1));
        lemma_first_position(s, n);
    }
}

/// Direction `d` of `r`: 0 up, 1 down, 2 in, 3 out.
pub open spec fn direction(r: DirectionsToGo, d: int) -> bool {
    if d == 0 {
        r.go_up
    } else if d == 1 {
        r.go_down
    } else if d == 2 {
        r.go_in
    } else {
        r.go_out
    }
}

/// The context agrees with itself: inputs and expressions occur once each,
/// and a processor lies above the owner of the focused socket exactly when
/// that owner does not head its group.
pub open spec fn nav_context_consistent(ctx: NavContext) -> bool {
    &&& ctx.inputs@.no_duplicates()
    &&& ctx.expressions@.no_duplicates()
    &&& (ctx.processor_above is Some <==> !ctx.is_top_of_group)
}

/// A direction is allowed exactly when moving that way changes the focus:
/// the directions offered are those that lead somewhere, and no other.
pub proof fn law_allowed_iff_moves(f: NavFocus, ctx: NavContext, d: int)
    requires
        0 <= d < 4,
        focus_in_context(f, ctx),
        nav_context_consistent(ctx),
    ensures
        direction(allowed_directions_spec(f, ctx), d) <==> next_focus(f, only(d), ctx) != f,
{
    match f {
        NavFocus::AroundInputSocket(i) => {
            let s = ctx.inputs@;
            lemma_first_position(s, i);
            let k = first_position(s, i);
            if k > 0 {
                assert(s[k - 1] != i);
            }
            if k + 1 < s.len() {
                assert(s[k + 1] != s[k]);
            }
        },
        NavFocus::AroundExpression(e) => {
            let all = ctx.expressions@;
            let s = expressions_of(all, e.processor);
            lemma_filter_no_duplicates(all, e.processor);
            lemma_first_position(s, e);
            let k = first_position(s, e);
            if k > 0 {
                assert(s[k - 1] != e);
            }
            if k + 1 < s.len() {
                assert(s[k + 1] != s[k]);
            }
        },
        _ => {},
    }
}

/// From an input socket that is not its processor's first input, up is
/// allowed and moves to the input before it, whether or not the processor
/// heads its group.
pub proof fn law_socket_up_to_previous(i: SoundInputId, ctx: NavContext)
    requires
        ctx.inputs@.contains(i),
        first_position(ctx.inputs@, i) > 0,
    ensures
        allowed_directions_spec(NavFocus::AroundInputSocket(i), ctx).go_up,
        next_focus(NavFocus::AroundInputSocket(i), only(0), ctx) == NavFocus::AroundInputSocket(
            ctx.inputs@[first_position(ctx.inputs@, i) - 1],
        ),
{
}

proof fn lemma_filter_no_duplicates(s: Seq<ProcessorExpressionLocation>, p: SoundProcessorId)
    requires
        s.no_duplicates(),
    ensures
        expressions_of(s, p).no_duplicates(),
    decreases s.len(),
{
    let pred = |l: ProcessorExpressionLocation| l.processor == p;
    if s.len() > 0 {
        let d = s.drop_last();
        assert(d.no_duplicates()) by {
            assert forall|i: int, j: int| 0 <= i < d.len() && 0 <= j < d.len() && i != j implies d[i] != d[j] by {
                assert(d[i] == s[i] && d[j] == s[j]);
            }
        }
        lemma_filter_no_duplicates(d, p);
        assert(s =~= d.push(s.last()));
        d.lemma_filter_push(s.last(), pred);
        if pred(s.last()) {
            let f = expressions_of(d, p);
            assert forall|i: int| 0 <= i < f.len() implies f[i] != s.last() by {
                d.lemma_filter_contains_rev(pred, f[i]);
                if f[i] == s.last() {
                    assert(f.contains(f[i]));
                    let j = choose|j: int| 0 <= j < d.len() && d[j] == f[i];
                    assert(s[j] == s[s.len() - 1]);
                }
            }
            let g = f.push(s.last());
            assert forall|i: int, j: int| 0 <= i < g.len() && 0 <= j < g.len() && i != j implies g[i] != g[j] by {
                if i < f.len() && j < f.len() {
                } else if i < f.len() {
                    assert(g[j] == s.last());
                } else {
                    assert(g[i] == s.last());
                }
            }
        }
    } else {
        reveal(Seq::filter);
    }
}

proof fn lemma_first_position<A>(s: Seq<A>, x: A)
    requires
        s.contains(x),
    ensures
        is_first_position(s, x, first_position(s, x)),
        forall|k: int| #[trigger] is_first_position(s, x, k) ==> k == first_position(s, x),
{
    let w = choose|w: int| 0 <= w < s.len() && s[w] == x;
    lemma_first_exists(s, x, w);
    let k = first_position(s, x);
    assert forall|m: int| #[trigger] is_first_position(s, x, m) implies m == k by {
        if m < k {
            assert(s[m] == x);
        } else if m > k {
            assert(s[k] == x);
        }
    }
}

proof fn lemma_first_exists<A>(s: Seq<A>, x: A, w: int)
    requires
        0 <= w < s.len(),
        s[w] == x,
    ensures
        exists|k: int| is_first_position(s, x, k),
    decreases w,
{
    if exists|j: int| 0 <= j < w && s[j] == x {
        let j = choose|j: int| 0 <= j < w && s[j] == x;
        lemma_first_exists(s, x, j);
    } else {
        assert(is_first_position(s, x, w));
    }
}

fn position_of_input(s: &Vec<SoundInputId>, x: SoundInputId) -> (k: usize)
    requires
        s@.contains(x),
    ensures
        k == first_position(s@, x),
        k < s@.len(),
        k < s.len(),
{
    proof {
        lemma_first_position(s@, x);
    }
    let mut k: usize = 0;
    while k < s.len()
        invariant
            k <= s@.len(),
            s@.contains(x),
            is_first_position(s@, x, first_position(s@, x)),
            forall|j: int| 0 <= j < k ==> s@[j] != x,
        decreases s.len() - k,
    {
        if s[k] == x {
            proof {
                assert(is_first_position(s@, x, k as int));
                lemma_first_position(s@, x);
            }
            return k;
        }
        k = k + 1;
    }
    proof {
        let p = first_position(s@, x);
        assert(s@[p] == x);
    }
    0
}

fn position_of_expression(s: &Vec<ProcessorExpressionLocation>, x: ProcessorExpressionLocation) -> (k: usize)
    requires
        s@.contains(x),
    ensures
        k == first_position(s@, x),
        k < s@.len(),
        k < s.len(),
{
    proof {
        lemma_first_position(s@, x);
    }
    let mut k: usize = 0;
    while k < s.len()
        invariant
            k <= s@.len(),
            s@.contains(x),
            is_first_position(s@, x, first_position(s@, x)),
            forall|j: int| 0 <= j < k ==> s@[j] != x,
        decreases s.len() - k,
    {
        if s[k] == x {
            proof {
                assert(is_first_position(s@, x, k as int));
                lemma_first_position(s@, x);
            }
            return k;
        }
        k = k + 1;
    }
    proof {
        let p = first_position(s@, x);
        assert(s@[p] == x);
    }
    0
}

/// The expressions of `s` that belong to processor `p`, in order.
pub fn expressions_of_processor(s: &Vec<ProcessorExpressionLocation>, p: SoundProcessorId) -> (r: Vec<
    ProcessorExpressionLocation,
>)
    ensures
        r@ == expressions_of(s@, p),
{
    let ghost pred = |l: ProcessorExpressionLocation| l.processor == p;
    let mut r: Vec<ProcessorExpressionLocation> = Vec::new();
    let mut k: usize = 0;
    proof {
        assert(s@.take(0) =~= Seq::<ProcessorExpressionLocation>::empty());
        reveal(Seq::filter);
    }
    while k < s.len()
        invariant
            k <= s@.len(),
            pred == (|l: ProcessorExpressionLocation| l.processor == p),
            r@ == s@.take(k as int).filter(pred),
        decreases s.len() - k,
    {
        let l = s[k];
        proof {
            assert(s@.take(k + 1) =~= s@.take(k as int).push(l));
            s@.take(k as int).lemma_filter_push(l, pred);
        }
        if l.processor == p {
            r.push(l);
        }
        k = k + 1;
    }
    proof {
        assert(s@.take(k as int) =~= s@);
    }
    r
}

impl KeyboardNavInteraction {
    /// Whether every object the focus names is still in the graph, whose
    /// processors and inputs are `processors` and `inputs`.
    pub fn is_valid(&self, processors: &Vec<SoundProcessorId>, inputs: &Vec<SoundInputId>) -> (b: bool)
        ensures
            b == focus_is_valid(self@, processors@, inputs@),
    {
        match self {
            KeyboardNavInteraction::AroundSoundProcessor(p) => contains_processor(processors, *p),
            KeyboardNavInteraction::AroundProcessorPlug(p) => contains_processor(processors, *p),
            KeyboardNavInteraction::AroundInputSocket(i) => contains_input(inputs, *i),
            KeyboardNavInteraction::AroundExpression(e) => contains_processor(processors, e.processor),
            KeyboardNavInteraction::InsideExpression(e, _) => contains_processor(processors, e.processor),
        }
    }

    /// The directions in which the focus may move in the given context.
    pub fn allowed_directions(&self, ctx: &NavContext) -> (d: DirectionsToGo)
        requires
            focus_in_context(self@, *ctx),
        ensures
            d == allowed_directions_spec(self@, *ctx),
    {
        let mut d = DirectionsToGo::nowhere();
        match self {
            KeyboardNavInteraction::AroundSoundProcessor(p) => {
                let exprs = expressions_of_processor(&ctx.expressions, *p);
                d.go_up = ctx.inputs.len() > 0;
                d.go_down = true;
                d.go_in = exprs.len() > 0;
            },
            KeyboardNavInteraction::AroundProcessorPlug(_) => {
                d.go_up = true;
                d.go_down = ctx.processor_below.is_some();
            },
            KeyboardNavInteraction::AroundInputSocket(i) => {
                let k = position_of_input(&ctx.inputs, *i);
                d.go_up = k > 0 || !ctx.is_top_of_group;
                d.go_down = true;
            },
            KeyboardNavInteraction::AroundExpression(e) => {
                let others = expressions_of_processor(&ctx.expressions, e.processor);
                let k = position_of_expression(&others, *e);
                d.go_up = k > 0;
                d.go_down = k + 1 < others.len();
                d.go_in = true;
                d.go_out = true;
            },
            KeyboardNavInteraction::InsideExpression(_, _) => {
                d.go_out = true;
            },
        }
        d
    }

    /// Moves the focus as the directions `requested` ask, the first of up,
    /// down, in and out that is asked for deciding; a move with nowhere to
    /// go leaves the focus where it is. Going into an expression puts the
    /// cursor at the start of its final expression.
    pub fn navigate(&mut self, requested: &DirectionsToGo, ctx: &NavContext)
        requires
            nav_context_fits(old(self)@, *requested, *ctx),
        ensures
            final(self)@ == next_focus(old(self)@, *requested, *ctx),
    {
        let next: Option<KeyboardNavInteraction> = match self {
            KeyboardNavInteraction::AroundSoundProcessor(p) => {
                if requested.go_up {
                    if ctx.inputs.len() > 0 {
                        Some(KeyboardNavInteraction::AroundInputSocket(ctx.inputs[ctx.inputs.len() - 1]))
                    } else {
                        None
                    }
                } else if requested.go_down {
                    Some(KeyboardNavInteraction::AroundProcessorPlug(*p))
                } else if requested.go_in {
                    let exprs = expressions_of_processor(&ctx.expressions, *p);
                    if exprs.len() > 0 {
                        Some(KeyboardNavInteraction::AroundExpression(exprs[0]))
                    } else {
                        None
                    }
                } else {
                    None
                }
            },
            KeyboardNavInteraction::AroundProcessorPlug(p) => {
                if requested.go_up {
                    Some(KeyboardNavInteraction::AroundSoundProcessor(*p))
                } else if requested.go_down {
                    if ctx.processor_below.is_some() {
                        Some(KeyboardNavInteraction::AroundInputSocket(ctx.inputs_below[0]))
                    } else {
                        None
                    }
                } else {
                    None
                }
            },
            KeyboardNavInteraction::AroundInputSocket(i) => {
                let k = position_of_input(&ctx.inputs, *i);
                if requested.go_up {
                    if k == 0 {
                        match ctx.processor_above {
                            Some(a) => Some(KeyboardNavInteraction::AroundProcessorPlug(a)),
                            None => None,
                        }
                    } else {
                        Some(KeyboardNavInteraction::AroundInputSocket(ctx.inputs[k - 1]))
                    }
                } else if requested.go_down {
                    if k + 1 == ctx.inputs.len() {
                        Some(KeyboardNavInteraction::AroundSoundProcessor(ctx.owner))
                    } else {
                        Some(KeyboardNavInteraction::AroundInputSocket(ctx.inputs[k + 1]))
                    }
                } else {
                    None
                }
            },
            KeyboardNavInteraction::AroundExpression(e) => {
                let others = expressions_of_processor(&ctx.expressions, e.processor);
                let k = position_of_expression(&others, *e);
                if requested.go_up {
                    if k > 0 {
                        Some(KeyboardNavInteraction::AroundExpression(others[k - 1]))
                    } else {
                        None
                    }
                } else if requested.go_down {
                    if k + 1 < others.len() {
                        Some(KeyboardNavInteraction::AroundExpression(others[k + 1]))
                    } else {
                        None
                    }
                } else if requested.go_in {
                    Some(KeyboardNavInteraction::InsideExpression(*e, LexicalLayoutCursor::new()))
                } else if requested.go_out {
                    Some(KeyboardNavInteraction::AroundSoundProcessor(e.processor))
                } else {
                    None
                }
            },
            KeyboardNavInteraction::InsideExpression(e, _) => {
                if requested.go_out {
                    Some(KeyboardNavInteraction::AroundExpression(*e))
                } else {
                    None
                }
            },
        };
        if let Some(n) = next {
            *self = n;
        }
    }
}

} // verus!
