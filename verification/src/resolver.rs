//! The resolver: asks the operator for the variables of a block that need
//! input, then loads the context of the block into its auto-generated
//! variables.
use crate::context::Context;
use crate::error::{Error, ErrorView};
use crate::model::{
    all_resolved, answer_effect, asked, block_text, first_unresolved, has_auto_generated,
    line_read, needs_input, next_line, prompt_text, prompted, simple_value, variable_key,
    variable_value, Answer, AutoGeneratedVariableView, Block, BlockView, SimpleVariableView,
    VariableType, VariableView,
};
use crate::terminal::{Terminal, TerminalView};
use vstd::prelude::*;

verus! {

/// The outcome of asking the operator for the variables of a block.
pub struct Prompted {
    /// The variables, with the inputs that were given.
    pub variables: Seq<VariableView>,
    /// The terminal after the prompts and the answers.
    pub terminal: TerminalView,
    /// The name of the variable at which the input ended, if it did.
    pub failed: Option<Seq<char>>,
}

/// Asking the operator for each simple variable that needs input, in order,
/// until one cannot be settled; the variables after that one stay as they are.
pub open spec fn asked_all(variables: Seq<VariableView>, t: TerminalView, use_default: bool) -> Prompted
    decreases variables.len(),
{
    if variables.len() == 0 {
        Prompted { variables, terminal: t, failed: None }
    } else {
        let before = asked_all(variables.drop_last(), t, use_default);
        let last = variables.last();
        if before.failed is Some {
            Prompted { variables: before.variables.push(last), ..before }
        } else {
            match last {
                VariableView::Input(v) => {
                    if needs_input(v, use_default) {
                        let (settled, terminal, ok) = asked(v, before.terminal);
                        Prompted {
                            variables: before.variables.push(VariableView::Input(settled)),
                            terminal,
                            failed: if ok {
                                None
                            } else {
                                Some(v.name)
                            },
                        }
                    } else {
                        Prompted { variables: before.variables.push(last), ..before }
                    }
                },
                _ => Prompted { variables: before.variables.push(last), ..before },
            }
        }
    }
}

/// The context of a block: the name and the value of each variable that is
/// not auto-generated and has a value. A later variable replaces an earlier
/// one of the same name.
pub open spec fn block_context(variables: Seq<VariableView>) -> Map<Seq<char>, Seq<char>>
    decreases variables.len(),
{
    if variables.len() == 0 {
        Map::empty()
    } else {
        let before = block_context(variables.drop_last());
        let last = variables.last();
        if last is AutoGenerated || variable_value(last) is None {
            before
        } else {
            before.insert(variable_key(last), variable_value(last).unwrap())
        }
    }
}

/// A variable after `ctx` was loaded: an auto-generated variable has the
/// bindings of `ctx` added to its context, any other stays as it is.
pub open spec fn with_context(v: VariableView, ctx: Map<Seq<char>, Seq<char>>) -> VariableView {
    match v {
        VariableView::AutoGenerated(a) => VariableView::AutoGenerated(
            AutoGeneratedVariableView { context: a.context.union_prefer_right(ctx), ..a },
        ),
        _ => v,
    }
}

/// The variables after `ctx` was loaded into each auto-generated one.
pub open spec fn loaded(variables: Seq<VariableView>, ctx: Map<Seq<char>, Seq<char>>) -> Seq<
    VariableView,
> {
    Seq::new(variables.len(), |i: int| with_context(variables[i], ctx))
}

/// Resolving the variables of a block: the operator is asked for the simple
/// variables that need input; then, unless the input ended too early, the
/// context of the block is loaded into its auto-generated variables.
pub open spec fn resolution(variables: Seq<VariableView>, t: TerminalView, use_default: bool) -> Prompted {
    let prompted = asked_all(variables, t, use_default);
    if prompted.failed is Some {
        prompted
    } else {
        Prompted {
            variables: loaded(prompted.variables, block_context(prompted.variables)),
            ..prompted
        }
    }
}

/// Asking keeps the number of variables.
pub proof fn lemma_asked_all_len(variables: Seq<VariableView>, t: TerminalView, use_default: bool)
    ensures
        asked_all(variables, t, use_default).variables.len() == variables.len(),
    decreases variables.len(),
{
    if variables.len() > 0 {
        lemma_asked_all_len(variables.drop_last(), t, use_default);
    }
}

/// Once the input has ended at one variable, the variables after it stay as they are.
pub proof fn lemma_asked_all_failed(
    variables: Seq<VariableView>,
    t: TerminalView,
    use_default: bool,
    k: int,
)
    requires
        0 <= k <= variables.len(),
        asked_all(variables.take(k), t, use_default).failed is Some,
    ensures
        asked_all(variables, t, use_default) == (Prompted {
            variables: asked_all(variables.take(k), t, use_default).variables + variables.skip(k),
            ..asked_all(variables.take(k), t, use_default)
        }),
    decreases variables.len() - k,
{
    let at_k = asked_all(variables.take(k), t, use_default);
    if k == variables.len() {
        assert(variables.take(k) == variables);
        assert(at_k.variables + variables.skip(k) == at_k.variables);
    } else {
        let shorter = variables.drop_last();
        assert(shorter.take(k) == variables.take(k));
        lemma_asked_all_failed(shorter, t, use_default, k);
        assert((at_k.variables + shorter.skip(k)).push(variables.last()) == at_k.variables
            + variables.skip(k));
    }
}

/// After every variable was settled, every variable has a value.
pub proof fn lemma_asked_all_resolved(variables: Seq<VariableView>, t: TerminalView, use_default: bool)
    requires
        asked_all(variables, t, use_default).failed is None,
    ensures
        all_resolved(asked_all(variables, t, use_default).variables),
    decreases variables.len(),
{
    if variables.len() > 0 {
        let shorter = variables.drop_last();
        let before = asked_all(shorter, t, use_default);
        lemma_asked_all_resolved(shorter, t, use_default);
        lemma_asked_all_len(shorter, t, use_default);
        let after = asked_all(variables, t, use_default);
        match variables.last() {
            VariableView::Input(v) => {
                if needs_input(v, use_default) {
                    lemma_asked_settles(v, before.terminal);
                }
            },
            _ => {},
        }
        assert forall|i: int| 0 <= i < after.variables.len() implies (#[trigger] variable_value(
            after.variables[i],
        )) is Some by {
            if i < shorter.len() {
                assert(after.variables[i] == before.variables[i]);
            }
        }
    }
}

/// A variable that was settled by asking has a value, and keeps its name,
/// its default and its help.
pub proof fn lemma_asked_settles(v: SimpleVariableView, t: TerminalView)
    ensures
        asked(v, t).2 ==> simple_value(asked(v, t).0) is Some,
        asked(v, t).0.name == v.name,
        asked(v, t).0.default == v.default,
        asked(v, t).0.help == v.help,
    decreases t.pending.len(),
{
    let after = line_read(prompted(t, prompt_text(v)));
    match answer_effect(v, next_line(t)) {
        Answer::AskAgain => {
            lemma_asked_settles(v, after);
        },
        _ => {},
    }
}

/// One step of `asked_all`: what asking does to a single variable.
pub open spec fn asked_one(v: VariableView, t: TerminalView, use_default: bool) -> (
    VariableView,
    TerminalView,
    Option<Seq<char>>,
) {
    match v {
        VariableView::Input(s) => {
            if needs_input(s, use_default) {
                let (settled, terminal, ok) = asked(s, t);
                (
                    VariableView::Input(settled),
                    terminal,
                    if ok {
                        None
                    } else {
                        Some(s.name)
                    },
                )
            } else {
                (v, t, None)
            }
        },
        _ => (v, t, None),
    }
}

impl VariableType {
    /// Asks the operator for this variable where it is a simple variable
    /// that needs input.
    pub fn ask_for_input(&mut self, terminal: &mut Terminal, use_default: bool) -> (r: Result<
        (),
        Error,
    >)
        ensures
            final(self)@ == asked_one(old(self)@, old(terminal)@, use_default).0,
            final(terminal)@ == asked_one(old(self)@, old(terminal)@, use_default).1,
            match r {
                Ok(()) => asked_one(old(self)@, old(terminal)@, use_default).2 is None,
                Err(e) => asked_one(old(self)@, old(terminal)@, use_default).2 matches Some(name)
                    && e@ == (ErrorView::UnresolvedRequiredVariable { name }),
            },
    {
        match self {
            VariableType::Input(v) => {
                if v.needs_input(use_default) {
                    v.ask_for_input(terminal)
                } else {
                    Ok(())
                }
            },
            _ => Ok(()),
        }
    }

    /// Loads `ctx` into this variable where it is auto-generated.
    pub fn load_context(&mut self, ctx: &Context)
        ensures
            final(self)@ == with_context(old(self)@, ctx@),
    {
        match self {
            VariableType::AutoGenerated(v) => {
                v.load_context(ctx);
            },
            _ => {},
        }
    }
}

impl Block {
    /// Asks the operator on `terminal` for each simple variable that needs
    /// input, in order. The first variable that cannot be settled ends the
    /// asking with an error that names it.
    pub fn ask_for_inputs(&mut self, terminal: &mut Terminal, use_default: bool) -> (r: Result<
        (),
        Error,
    >)
        ensures
            final(self).title == old(self).title,
            final(self).description == old(self).description,
            final(self)@.variables == asked_all(
                old(self)@.variables,
                old(terminal)@,
                use_default,
            ).variables,
            final(terminal)@ == asked_all(
                old(self)@.variables,
                old(terminal)@,
                use_default,
            ).terminal,
            match r {
                Ok(()) => asked_all(old(self)@.variables, old(terminal)@, use_default).failed
                    is None,
                Err(e) => asked_all(
                    old(self)@.variables,
                    old(terminal)@,
                    use_default,
                ).failed matches Some(name) && e@ == (ErrorView::UnresolvedRequiredVariable {
                    name,
                }),
            },
    {
        let n = self.variables.len();
        let ghost before = old(self)@.variables;
        let ghost start = old(terminal)@;
        let mut i: usize = 0;
        proof {
            assert(self@.variables.take(0) == Seq::<VariableView>::empty());
            assert(before.take(0) == Seq::<VariableView>::empty());
        }
        while i < n
            invariant
                i <= n == self.variables.len(),
                before.len() == n,
                before == old(self)@.variables,
                start == old(terminal)@,
                self.title == old(self).title,
                self.description == old(self).description,
                asked_all(before.take(i as int), start, use_default) == (Prompted {
                    variables: self@.variables.take(i as int),
                    terminal: terminal@,
                    failed: None,
                }),
                self@.variables.skip(i as int) == before.skip(i as int),
            decreases n - i,
        {
            let ghost now = self@.variables;
            let asked = self.variables[i].ask_for_input(terminal, use_default);
            proof {
                let longer = before.take(i + 1);
                assert(longer.drop_last() == before.take(i as int));
                assert(longer.last() == before[i as int]);
                assert(now[i as int] == now.skip(i as int)[0]);
                assert(before[i as int] == before.skip(i as int)[0]);
                assert(self@.variables.take(i + 1) == now.take(i as int).push(
                    self@.variables[i as int],
                ));
                assert(self@.variables.skip(i + 1) == now.skip(i as int).skip(1));
                assert(before.skip(i + 1) == before.skip(i as int).skip(1));
            }
            match asked {
                Ok(()) => {},
                Err(e) => {
                    proof {
                        lemma_asked_all_failed(before, start, use_default, i + 1);
                        assert(self@.variables == self@.variables.take(i + 1)
                            + self@.variables.skip(i + 1));
                    }
                    return Err(e);
                },
            }
            i += 1;
        }
        proof {
            assert(before.take(n as int) == before);
            assert(self@.variables.take(n as int) == self@.variables);
        }
        Ok(())
    }

    /// The context of the block: the name and the value of each variable
    /// that is not auto-generated. An error names the first such variable
    /// without a value.
    pub fn context(&self) -> (r: Result<Context, Error>)
        ensures
            match r {
                Ok(context) => all_resolved(self@.variables) && context@ == block_context(
                    self@.variables,
                ),
                Err(e) => exists|i: int|
                    first_unresolved(self@.variables, i) && e@
                        == (ErrorView::UnresolvedRequiredVariable {
                        name: variable_key(self@.variables[i]),
                    }),
            },
    {
        let n = self.variables.len();
        let ghost variables = self@.variables;
        let mut context = Context::new();
        let mut j: usize = 0;
        assert(variables.take(0) == Seq::<VariableView>::empty());
        while j < n
            invariant
                j <= n == self.variables.len(),
                variables == self@.variables,
                all_resolved(variables.take(j as int)),
                context@ == block_context(variables.take(j as int)),
            decreases n - j,
        {
            proof {
                let longer = variables.take(j + 1);
                assert(longer.drop_last() == variables.take(j as int));
                assert(longer.last() == variables[j as int]);
                assert forall|k: int| 0 <= k < j + 1 && variable_value(variables[j as int])
                    is Some implies (#[trigger] variable_value(longer[k])) is Some by {
                    if k < j {
                        assert(variables.take(j as int)[k] == variables[k]);
                    }
                }
            }
            match &self.variables[j] {
                VariableType::AutoGenerated(_) => {},
                other => {
                    match other.value() {
                        Ok(value) => {
                            context.insert(other.key(), value);
                        },
                        Err(e) => {
                            assert(first_unresolved(variables, j as int));
                            return Err(e);
                        },
                    }
                },
            }
            j += 1;
        }
        assert(variables.take(n as int) == variables);
        Ok(context)
    }

    /// Loads the context of the block into its auto-generated variables.
    /// Where the block has such variables, every other variable must have a
    /// value: an error names the first one that has none, and the block stays
    /// as it is.
    pub fn load_contexts(&mut self) -> (r: Result<(), Error>)
        ensures
            final(self).title == old(self).title,
            final(self).description == old(self).description,
            match r {
                Ok(()) => (!has_auto_generated(old(self)@.variables) || all_resolved(
                    old(self)@.variables,
                )) && final(self)@.variables == loaded(
                    old(self)@.variables,
                    block_context(old(self)@.variables),
                ),
                Err(e) => has_auto_generated(old(self)@.variables) && final(self)@.variables
                    == old(self)@.variables && exists|i: int|
                    first_unresolved(old(self)@.variables, i) && e@
                        == (ErrorView::UnresolvedRequiredVariable {
                        name: variable_key(old(self)@.variables[i]),
                    }),
            },
    {
        let ghost settled = self@.variables;
        if !self.has_auto_generated_variables() {
            assert(loaded(settled, block_context(settled)) == settled);
            return Ok(());
        }
        let context = match self.context() {
            Ok(context) => context,
            Err(e) => {
                return Err(e);
            },
        };
        let n = self.variables.len();
        let mut k: usize = 0;
        while k < n
            invariant
                k <= n == self.variables.len(),
                settled.len() == n,
                self.title == old(self).title,
                self.description == old(self).description,
                context@ == block_context(settled),
                forall|m: int| 0 <= m < k ==> self@.variables[m] == with_context(settled[m], context@),
                forall|m: int| k <= m < n ==> self@.variables[m] == settled[m],
            decreases n - k,
        {
            let ghost now = self@.variables;
            self.variables[k].load_context(&context);
            proof {
                assert forall|m: int| 0 <= m < k + 1 implies self@.variables[m] == with_context(
                    settled[m],
                    context@,
                ) by {
                    if m < k {
                        assert(self@.variables[m] == now[m]);
                    }
                }
                assert forall|m: int| k + 1 <= m < n implies self@.variables[m] == settled[m] by {
                    assert(self@.variables[m] == now[m]);
                }
            }
            k += 1;
        }
        assert(self@.variables == loaded(settled, context@));
        Ok(())
    }

    /// Resolves the block on `terminal`: asks the operator for the simple
    /// variables that need input, then loads the context of the block into
    /// its auto-generated variables. The first variable that cannot be
    /// settled ends the resolution with an error that names it.
    pub fn resolve(&mut self, terminal: &mut Terminal, use_default: bool) -> (r: Result<(), Error>)
        ensures
            final(self).title == old(self).title,
            final(self).description == old(self).description,
            final(self)@.variables == resolution(
                old(self)@.variables,
                old(terminal)@,
                use_default,
            ).variables,
            final(terminal)@ == resolution(
                old(self)@.variables,
                old(terminal)@,
                use_default,
            ).terminal,
            match r {
                Ok(()) => resolution(old(self)@.variables, old(terminal)@, use_default).failed
                    is None,
                Err(e) => resolution(
                    old(self)@.variables,
                    old(terminal)@,
                    use_default,
                ).failed matches Some(name) && e@ == (ErrorView::UnresolvedRequiredVariable {
                    name,
                }),
            },
    {
        match self.ask_for_inputs(terminal, use_default) {
            Ok(()) => {},
            Err(e) => {
                return Err(e);
            },
        }
        proof {
            lemma_asked_all_resolved(old(self)@.variables, old(terminal)@, use_default);
        }
        let ghost settled = self@.variables;
        match self.load_contexts() {
            Ok(()) => Ok(()),
            Err(e) => {
                let ghost i = choose|i: int| first_unresolved(settled, i);
                assert(variable_value(settled[i]) is Some);
                assert(false);
                Err(e)
            },
        }
    }
}

/// Whether every simple variable has its input.
pub open spec fn inputs_given(variables: Seq<VariableView>) -> bool {
    forall|i: int|
        0 <= i < variables.len() ==> ((#[trigger] variables[i]) matches VariableView::Input(v)
            ==> v.input is Some)
}

/// Where every simple variable has its input, the operator is asked
/// nothing: no variable changes, no prompt is written and no line is read.
pub proof fn lemma_inputs_given_asks_nothing(
    variables: Seq<VariableView>,
    t: TerminalView,
    use_default: bool,
)
    requires
        inputs_given(variables),
    ensures
        asked_all(variables, t, use_default) == (Prompted { variables, terminal: t, failed: None }),
    decreases variables.len(),
{
    if variables.len() > 0 {
        let shorter = variables.drop_last();
        assert forall|i: int| 0 <= i < shorter.len() implies ((#[trigger] shorter[i]) matches VariableView::Input(
            v,
        ) ==> v.input is Some) by {
            assert(shorter[i] == variables[i]);
        }
        lemma_inputs_given_asks_nothing(shorter, t, use_default);
        assert(variables.last() == variables[variables.len() - 1]);
        assert(shorter.push(variables.last()) == variables);
    }
}

/// Resolving a block whose simple variables all have their input does not
/// depend on the operator: whatever the terminal holds and whether defaults
/// are taken without asking, the resolution succeeds, leaves the terminal as
/// it was, and gives the same variables, hence the same text.
pub proof fn lemma_resolution_without_operator(
    b: BlockView,
    t1: TerminalView,
    use_default1: bool,
    t2: TerminalView,
    use_default2: bool,
)
    requires
        inputs_given(b.variables),
    ensures
        resolution(b.variables, t1, use_default1).failed is None,
        resolution(b.variables, t1, use_default1).terminal == t1,
        resolution(b.variables, t1, use_default1).variables == resolution(
            b.variables,
            t2,
            use_default2,
        ).variables,
        block_text(BlockView { variables: resolution(b.variables, t1, use_default1).variables, ..b })
            == block_text(
            BlockView { variables: resolution(b.variables, t2, use_default2).variables, ..b },
        ),
{
    lemma_inputs_given_asks_nothing(b.variables, t1, use_default1);
    lemma_inputs_given_asks_nothing(b.variables, t2, use_default2);
}

/// A resolution that succeeds gives every variable a value.
pub proof fn lemma_resolution_resolved(variables: Seq<VariableView>, t: TerminalView, use_default: bool)
    requires
        resolution(variables, t, use_default).failed is None,
    ensures
        all_resolved(resolution(variables, t, use_default).variables),
{
    lemma_asked_all_resolved(variables, t, use_default);
    let settled = asked_all(variables, t, use_default).variables;
    let ctx = block_context(settled);
    assert forall|i: int| 0 <= i < settled.len() implies (#[trigger] variable_value(
        loaded(settled, ctx)[i],
    )) is Some by {
        assert(variable_value(settled[i]) is Some);
    }
}

} // verus!
