use vstd::multiset::Multiset;
use vstd::prelude::*;

use crate::assoc::{
    bind, find_key, has_key, keys_unique, lemma_lookup_at, lemma_lookup_frame, lookup,
};
use crate::channel::{Channel, ChannelConfig};
use crate::commands::run::Steps;
use crate::commands::user::{
    contains_str,
    ask_user_for_serialization, common, copy_strings, create_valid_tmp_target_fn, get_if_only_one,
    listed, shared, target_fits, TargetFilter,
};
use crate::json::{
    array_field, json_array_field, json_parsed, json_string, parse_json, string_value, texts,
    texts_of, views,
};
use crate::runner::Runner;
use crate::step::{
    argument_wf, copy_arguments, find_runner, runner_found, same_argument, writer_field, Output, RunThing, Step, StepArg,
    StepArgument, StepArguments, SubStep, TargetError,
};

verus! {

/// A stream writer that waits for a reader.
pub struct TmpTarget {
    pub step_id: String,
    pub writer_id: String,
    pub name: String,
    pub possible_channels: Vec<String>,
    pub possible_serializations: Vec<String>,
}

/// The channels and serializations that the runner of the current step speaks.
pub struct Ctx {
    pub channels: Vec<String>,
    pub serializations: Vec<String>,
}

impl Ctx {
    /// The context of a step run by `runner_id`, if the catalogue has it.
    pub fn for_runner(runners: &Vec<Runner>, runner_id: &String) -> (r: Option<Ctx>)
        ensures
            r is None <==> forall|j: int| 0 <= j < runners@.len() ==> runners@[j].id@ != runner_id@,
            r matches Some(c) ==> exists|j: int|
                0 <= j < runners@.len() && runners@[j].id@ == runner_id@ && c.channels@
                    == runners@[j].can_use_channel@ && c.serializations@
                    == runners@[j].can_use_serialization@,
    {
        match find_runner(runners, runner_id) {
            Some(i) => Some(
                Ctx {
                    channels: copy_strings(&runners[i].can_use_channel),
                    serializations: copy_strings(&runners[i].can_use_serialization),
                },
            ),
            None => None,
        }
    }
}

/// What makes a synthesis impossible.
#[derive(Debug, PartialEq, Eq, Structural)]
pub enum SynthError {
    /// The chosen channel type is not in the catalogue.
    UnknownChannel,
    /// The chosen channel has no option left.
    NoOptionLeft,
    /// Two steps share an id.
    DuplicateStep,
    /// A writer belongs to no finished step.
    UnknownStep,
    /// A writer's argument id is taken by another kind of argument.
    NotAWriter,
    /// A choice lies outside the list it picks from.
    NoChoice,
    /// A step names a runner that the catalogue lacks.
    NoRunner,
}

/// The options of a channel, as a sequence.
pub open spec fn options_of(entries: Seq<(String, Vec<serde_json::Value>)>, ty: Seq<char>) -> Option<
    Seq<serde_json::Value>,
> {
    match lookup(entries, ty) {
        Some(v) => Some(v@),
        None => None,
    }
}

/// The options that remain for each channel id.
pub struct ChannelOptions {
    pub entries: Vec<(String, Vec<serde_json::Value>)>,
    /// The options as the catalogue offered them.
    pub initial: Ghost<Seq<(String, Vec<serde_json::Value>)>>,
    /// Each option taken so far, with its channel id, in order.
    pub taken: Ghost<Seq<(Seq<char>, serde_json::Value)>>,
}

/// The options taken from channel `ty`.
pub open spec fn taken_from(taken: Seq<(Seq<char>, serde_json::Value)>, ty: Seq<char>) -> Multiset<
    serde_json::Value,
>
    decreases taken.len(),
{
    if taken.len() == 0 {
        Multiset::empty()
    } else if taken.last().0 == ty {
        taken_from(taken.drop_last(), ty).insert(taken.last().1)
    } else {
        taken_from(taken.drop_last(), ty)
    }
}

/// The pool of channel `ty` in `entries`, as a multiset; empty if none.
pub open spec fn pool(entries: Seq<(String, Vec<serde_json::Value>)>, ty: Seq<char>) -> Multiset<
    serde_json::Value,
> {
    match options_of(entries, ty) {
        Some(o) => o.to_multiset(),
        None => Multiset::empty(),
    }
}

impl ChannelOptions {
    /// Channel ids are unique, and each channel's initial pool is what
    /// remains of it plus what was taken from it.
    pub open spec fn wf(self) -> bool {
        &&& keys_unique(self.entries@)
        &&& forall|ty: Seq<char>|
            #[trigger] pool(self.initial@, ty) == pool(self.entries@, ty).add(
                taken_from(self.taken@, ty),
            )
    }

    /// The options of each channel of the catalogue; where two channels share
    /// an id, the later one's.
    pub fn from_channels(channels: &Vec<Channel>) -> (r: ChannelOptions)
        ensures
            r.wf(),
            forall|i: int| 0 <= i < channels@.len() ==> has_key(r.entries@, #[trigger] channels@[i].id@),
            forall|k: Seq<char>|
                #[trigger] has_key(r.entries@, k) ==> exists|i: int|
                    0 <= i < channels@.len() && channels@[i].id@ == k && options_of(r.entries@, k)
                        == Some(channels@[i].options@),
    {
        let mut entries: Vec<(String, Vec<serde_json::Value>)> = Vec::new();
        let mut i: usize = 0;
        while i < channels.len()
            invariant
                i <= channels@.len(),
                keys_unique(entries@),
                forall|j: int| 0 <= j < i ==> has_key(entries@, #[trigger] channels@[j].id@),
                forall|k: Seq<char>|
                    #[trigger] has_key(entries@, k) ==> exists|j: int|
                        0 <= j < i && channels@[j].id@ == k && options_of(entries@, k) == Some(
                            channels@[j].options@,
                        ),
            decreases channels@.len() - i,
        {
            let mut opts: Vec<serde_json::Value> = Vec::new();
            let mut k: usize = 0;
            while k < channels[i].options.len()
                invariant
                    i < channels@.len(),
                    k <= channels@[i as int].options@.len(),
                    opts@ == channels@[i as int].options@.take(k as int),
                decreases channels@[i as int].options@.len() - k,
            {
                opts.push(channels[i].options[k].clone());
                k = k + 1;
                assert(opts@ =~= channels@[i as int].options@.take(k as int));
            }
            assert(channels@[i as int].options@.take(k as int) =~= channels@[i as int].options@);
            let ghost before = entries@;
            let ghost id = channels@[i as int].id@;
            bind(&mut entries, channels[i].id.clone(), opts);
            proof {
                assert forall|j: int| 0 <= j < i + 1 implies has_key(
                    entries@,
                    #[trigger] channels@[j].id@,
                ) by {
                    if j < i && channels@[j].id@ != id {
                        assert(has_key(before, channels@[j].id@));
                        if lookup(entries@, channels@[j].id@) is None {
                        }
                    }
                }
                assert forall|k: Seq<char>| #[trigger] has_key(entries@, k) implies exists|j: int|
                    0 <= j < i + 1 && channels@[j].id@ == k && options_of(entries@, k) == Some(
                        channels@[j].options@,
                    ) by {
                    if k == id {
                        assert(channels@[i as int].id@ == k);
                    } else {
                        assert(lookup(entries@, k) == lookup(before, k));
                        assert(has_key(before, k));
                    }
                }
            }
            i = i + 1;
        }
        let ghost init = entries@;
        let r = ChannelOptions { entries, initial: Ghost(init), taken: Ghost(Seq::empty()) };
        assert forall|ty: Seq<char>| #[trigger] pool(r.initial@, ty) == pool(r.entries@, ty).add(
            taken_from(r.taken@, ty),
        ) by {
            assert(pool(r.entries@, ty).add(Multiset::empty()) =~= pool(r.entries@, ty));
        }
        r
    }

    /// Takes the option at `index` of channel `ty`: it is removed, so that no
    /// later pick can return it again.
    pub fn take(&mut self, ty: &String, index: usize) -> (r: Result<serde_json::Value, SynthError>)
        requires
            old(self).wf(),
        ensures
            final(self).wf(),
            final(self).initial == old(self).initial,
            match r {
                Ok(v) => final(self).taken@ == old(self).taken@.push((ty@, v)),
                Err(_) => final(self).taken == old(self).taken,
            },
            match options_of(old(self).entries@, ty@) {
                None => r == Err::<serde_json::Value, SynthError>(SynthError::UnknownChannel)
                    && final(self).entries@ == old(self).entries@,
                Some(opts) => if index < opts.len() {
                    r == Ok::<serde_json::Value, SynthError>(opts[index as int]) && options_of(
                        final(self).entries@,
                        ty@,
                    ) == Some(opts.remove(index as int)) && forall|k: Seq<char>|
                        k != ty@ ==> options_of(final(self).entries@, k) == options_of(
                            old(self).entries@,
                            k,
                        )
                } else {
                    r == Err::<serde_json::Value, SynthError>(SynthError::NoOptionLeft)
                        && final(self).entries@ == old(self).entries@
                },
            },
    {
        match find_key(&self.entries, ty) {
            None => Err(SynthError::UnknownChannel),
            Some(i) => {
                proof {
                    lemma_lookup_at(self.entries@, ty@, i as int);
                }
                if index >= self.entries[i].1.len() {
                    return Err(SynthError::NoOptionLeft);
                }
                let ghost before = self.entries@;
                let ghost old_taken = self.taken@;
                let ghost whole = self.entries@[i as int].1@;
                let (key, mut opts) = self.entries.remove(i);
                let v = opts.remove(index);
                self.taken = Ghost(old_taken.push((ty@, v)));
                self.entries.insert(i, (key, opts));
                assert(self.entries@ =~= before.update(i as int, (key, opts)));
                proof {
                    assert(keys_unique(self.entries@));
                    lemma_lookup_at(self.entries@, ty@, i as int);
                    lemma_lookup_frame(before, self.entries@, ty@);
                    assert forall|k: Seq<char>| k != ty@ implies options_of(self.entries@, k)
                        == options_of(before, k) by {
                        assert(lookup(self.entries@, k) == lookup(before, k));
                    }
                    assert(self.taken@.drop_last() =~= old_taken);
                    lemma_pick_removes_one(whole, index as int);
                    assert forall|k: Seq<char>| #[trigger] pool(self.initial@, k) == pool(
                        self.entries@,
                        k,
                    ).add(taken_from(self.taken@, k)) by {
                        broadcast use vstd::multiset::group_multiset_axioms;

                        assert(pool(self.initial@, k) == pool(before, k).add(
                            taken_from(old_taken, k),
                        ));
                        if k == ty@ {
                            assert(pool(before, k) == whole.to_multiset());
                            assert(pool(self.entries@, k) == whole.remove(index as int).to_multiset());
                            assert(taken_from(self.taken@, k) == taken_from(old_taken, k).insert(v));
                            assert(pool(self.initial@, k) =~= pool(self.entries@, k).add(
                                taken_from(self.taken@, k),
                            ));
                        } else {
                            assert(options_of(self.entries@, k) == options_of(before, k));
                            assert(taken_from(self.taken@, k) == taken_from(old_taken, k));
                        }
                    }
                }
                Ok(v)
            },
        }
    }
}

/// The position of the step whose id is `id`.
pub open spec fn step_index(all: Seq<StepArguments>, id: Seq<char>) -> Option<int> {
    if exists|i: int| 0 <= i < all.len() && all[i].step.id@ == id {
        Some(choose|i: int| 0 <= i < all.len() && all[i].step.id@ == id)
    } else {
        None
    }
}

/// The configuration that writer `writer_id` of step `step_id` holds for `name`.
pub open spec fn linked_config(
    all: Seq<StepArguments>,
    step_id: Seq<char>,
    writer_id: Seq<char>,
    name: Seq<char>,
) -> Option<ChannelConfig> {
    match step_index(all, step_id) {
        Some(i) => writer_field(all[i].arguments@, writer_id, name),
        None => None,
    }
}

/// Whether `sub` inlines the finished step `linked`: its descriptor, a deep
/// copy of its arguments, and the given output and serialization.
pub open spec fn inlines(sub: SubStep, linked: StepArguments, output: Output, serialization: String) -> bool {
    &&& sub.run.processor_config.same_as(linked.step)
    &&& sub.run.args@.len() == linked.arguments@.len()
    &&& forall|i: int|
        0 <= i < linked.arguments@.len() ==> (#[trigger] sub.run.args@[i]).0
            == linked.arguments@[i].0 && same_argument(linked.arguments@[i].1, sub.run.args@[i].1)
    &&& sub.output == output
    &&& sub.serialization == serialization
}

/// Whether `a` is a sub-step argument that inlines `linked`.
pub open spec fn inlined_as(a: StepArgument, linked: StepArguments, output: Output, serialization: String) -> bool {
    match a {
        StepArgument::Step { sub } => inlines(sub, linked, output, serialization),
        _ => false,
    }
}

/// Every link other than writer `writer_id` of step `step_id` for `name`
/// holds the same configuration in `after` as in `before`.
pub open spec fn other_links_kept(
    before: Seq<StepArguments>,
    after: Seq<StepArguments>,
    step_id: Seq<char>,
    writer_id: Seq<char>,
    name: Seq<char>,
) -> bool {
    forall|s: Seq<char>, w: Seq<char>, n: Seq<char>|
        !(s == step_id && w == writer_id && n == name) ==> #[trigger] linked_config(after, s, w, n)
            == linked_config(before, s, w, n)
}

/// With distinct step ids, the step found at `i` is the one with its id.
pub proof fn lemma_step_index_at(all: Seq<StepArguments>, id: Seq<char>, i: int)
    requires
        forall|a: int, b: int| 0 <= a < b < all.len() ==> all[a].step.id@ != all[b].step.id@,
        0 <= i < all.len(),
        all[i].step.id@ == id,
    ensures
        step_index(all, id) == Some(i),
{
    let c = choose|c: int| 0 <= c < all.len() && all[c].step.id@ == id;
    assert(c == i) by {
        if c < i {
            assert(all[c].step.id@ != all[i].step.id@);
        } else if c > i {
            assert(all[i].step.id@ != all[c].step.id@);
        }
    }
}

/// Whether the step that `a` inlines, if it inlines one, is consumed.
pub open spec fn inline_consumed(a: StepArgument, used: Seq<String>) -> bool {
    match a {
        StepArgument::Step { sub } => is_used(used, sub.run.processor_config.id@),
        _ => true,
    }
}

/// Whether the name of `a`, if it is a parameter, is listed in `params`.
pub open spec fn param_listed(a: StepArgument, params: Seq<String>) -> bool {
    match a {
        StepArgument::Param { name } => listed(params, name@),
        _ => true,
    }
}

/// Whether `a` inlines no step with id `id`.
pub open spec fn inlines_not(a: StepArgument, id: Seq<char>) -> bool {
    match a {
        StepArgument::Step { sub } => sub.run.processor_config.id@ != id,
        _ => true,
    }
}

/// Whether the finished step `step_id` binds `writer_id` to something other
/// than a stream writer.
pub open spec fn writer_slot_taken(all: Seq<StepArguments>, step_id: Seq<char>, writer_id: Seq<char>) -> bool {
    match step_index(all, step_id) {
        Some(i) => match lookup(all[i].arguments@, writer_id) {
            Some(a) => !(a is StreamWriter),
            None => false,
        },
        None => false,
    }
}

/// Whether a step id was consumed as a sub-step.
pub open spec fn is_used(used: Seq<String>, id: Seq<char>) -> bool {
    listed(used, id)
}

/// The finished steps that were not consumed as sub-steps, in order.
pub open spec fn kept_steps(all: Seq<StepArguments>, used: Seq<String>) -> Seq<StepArguments> {
    all.filter(not_used(used))
}

/// Whether a finished step is emitted at the top level.
pub open spec fn not_used(used: Seq<String>) -> spec_fn(StepArguments) -> bool {
    |a: StepArguments| !is_used(used, a.step.id@)
}

/// The written positions of `open` that fit a reader, among the first `n`.
pub open spec fn fitting(
    open: Seq<TmpTarget>,
    channels: Seq<String>,
    sers: Seq<String>,
    n: int,
) -> Seq<usize>
    decreases n,
{
    if n <= 0 {
        Seq::empty()
    } else if target_fits(open[n - 1], channels, sers) {
        fitting(open, channels, sers, n - 1).push((n - 1) as usize)
    } else {
        fitting(open, channels, sers, n - 1)
    }
}

/// The positions, among the first `n` of `cands`, of writers named `src`.
pub open spec fn named(open: Seq<TmpTarget>, cands: Seq<usize>, src: Seq<char>, n: int) -> Seq<usize>
    decreases n,
{
    if n <= 0 {
        Seq::empty()
    } else if open[cands[n - 1] as int].name@ == src {
        named(open, cands, src, n - 1).push((n - 1) as usize)
    } else {
        named(open, cands, src, n - 1)
    }
}

proof fn lemma_fitting_bounds(open: Seq<TmpTarget>, channels: Seq<String>, sers: Seq<String>, n: int)
    requires
        0 <= n <= open.len(),
    ensures
        forall|k: int|
            0 <= k < fitting(open, channels, sers, n).len() ==> (#[trigger] fitting(
                open,
                channels,
                sers,
                n,
            )[k]) < n,
        fitting(open, channels, sers, n).len() <= n,
    decreases n,
{
    if n > 0 {
        lemma_fitting_bounds(open, channels, sers, n - 1);
    }
}

proof fn lemma_named_bounds(open: Seq<TmpTarget>, cands: Seq<usize>, src: Seq<char>, n: int)
    requires
        0 <= n <= cands.len(),
        forall|k: int| 0 <= k < cands.len() ==> (#[trigger] cands[k]) < open.len(),
    ensures
        forall|k: int|
            0 <= k < named(open, cands, src, n).len() ==> (#[trigger] named(open, cands, src, n)[k])
                < n,
        named(open, cands, src, n).len() <= n,
    decreases n,
{
    if n > 0 {
        lemma_named_bounds(open, cands, src, n - 1);
    }
}

/// The user's answers for one source of a stream reader: the position of the
/// writer among the candidates (any position past them means another source),
/// and the positions of the channel type, the option and the serialization.
#[derive(Clone, Copy, Debug, PartialEq, Eq, Structural)]
pub struct SourceChoice {
    pub writer: usize,
    pub channel_type: usize,
    pub option: usize,
    pub serialization: usize,
}

/// The positions of the open writers that a reader of `ctx` may link to.
pub open spec fn candidates_for(open: Seq<TmpTarget>, ctx: Ctx) -> Seq<usize> {
    fitting(open, ctx.channels@, ctx.serializations@, open.len() as int)
}

/// The position among the candidates that is linked: in automatic mode the one
/// writer named `src` when exactly one is, otherwise the user's pick.
pub open spec fn picked_writer(
    open: Seq<TmpTarget>,
    ctx: Ctx,
    src: Seq<char>,
    automatic: bool,
    writer: usize,
) -> int {
    let cands = candidates_for(open, ctx);
    let m = named(open, cands, src, cands.len() as int);
    if automatic && m.len() == 1 {
        m[0] as int
    } else {
        writer as int
    }
}

/// The writer that a source links to, if the pick is one of the candidates.
pub open spec fn linked_writer(
    open: Seq<TmpTarget>,
    ctx: Ctx,
    src: Seq<char>,
    automatic: bool,
    writer: usize,
) -> Option<TmpTarget> {
    let cands = candidates_for(open, ctx);
    let n = picked_writer(open, ctx, src, automatic, writer);
    if 0 <= n < cands.len() {
        Some(open[cands[n] as int])
    } else {
        None
    }
}

/// The channel types offered for a source: those shared with the writer, or
/// all of the reader's.
pub open spec fn offered_types(w: Option<TmpTarget>, ctx: Ctx) -> Seq<String> {
    match w {
        Some(t) => common(t.possible_channels@, ctx.channels@),
        None => ctx.channels@,
    }
}

/// The serializations offered for a source.
pub open spec fn offered_sers(w: Option<TmpTarget>, ctx: Ctx) -> Seq<String> {
    match w {
        Some(t) => common(t.possible_serializations@, ctx.serializations@),
        None => ctx.serializations@,
    }
}

/// Whether channel `ty` still has an option at `index`.
pub open spec fn option_available(
    entries: Seq<(String, Vec<serde_json::Value>)>,
    ty: Seq<char>,
    index: int,
) -> bool {
    match options_of(entries, ty) {
        Some(o) => 0 <= index < o.len(),
        None => false,
    }
}

/// Whether the writer `t` belongs to a finished step whose argument slot for
/// it is free or a stream writer.
pub open spec fn writer_ready(all: Seq<StepArguments>, t: TmpTarget) -> bool {
    step_index(all, t.step_id@) is Some && !writer_slot_taken(all, t.step_id@, t.writer_id@)
}

/// `after` is `before` followed by one target per name, for writer
/// `writer_id` of step `step_id` with the channels of `ctx`.
pub open spec fn opens_targets(
    before: Seq<TmpTarget>,
    after: Seq<TmpTarget>,
    step_id: String,
    writer_id: String,
    ctx: Ctx,
    names: Seq<String>,
) -> bool {
    &&& after.len() == before.len() + names.len()
    &&& forall|k: int| 0 <= k < before.len() ==> after[k] == before[k]
    &&& forall|k: int|
        0 <= k < names.len() ==> {
            let t = #[trigger] after[before.len() + k];
            &&& t.name == names[k]
            &&& t.step_id == step_id
            &&& t.writer_id == writer_id
            &&& t.possible_channels@ == ctx.channels@
            &&& t.possible_serializations@ == ctx.serializations@
        }
}

/// The state of one synthesis while the steps are walked in order.
pub struct State {
    pub open_channels: Vec<TmpTarget>,
    pub all_step_args: Vec<StepArguments>,
    pub done: Vec<String>,
    pub used: Vec<String>,
    pub params: Vec<String>,
}

impl State {
    /// Finished steps have distinct ids, listed in `done` in order; every step
    /// inlined as an argument of a finished step is consumed, and every
    /// parameter name of one is listed, once, in `params`.
    pub open spec fn wf(self) -> bool {
        &&& forall|i: int|
            0 <= i < self.all_step_args@.len() ==> (#[trigger] self.all_step_args@[i]).wf()
        &&& forall|i: int, j: int|
            0 <= i < j < self.all_step_args@.len() ==> self.all_step_args@[i].step.id@
                != self.all_step_args@[j].step.id@
        &&& self.done@.len() == self.all_step_args@.len()
        &&& forall|i: int|
            0 <= i < self.done@.len() ==> (#[trigger] self.done@[i])@
                == self.all_step_args@[i].step.id@
        &&& forall|i: int, e: int|
            0 <= i < self.all_step_args@.len() && 0 <= e < self.all_step_args@[i].arguments@.len()
                ==> inline_consumed(
                (#[trigger] self.all_step_args@[i].arguments@[e]).1,
                self.used@,
            ) && param_listed(self.all_step_args@[i].arguments@[e].1, self.params@)
        &&& forall|i: int, j: int|
            0 <= i < j < self.params@.len() ==> self.params@[i]@ != self.params@[j]@
    }

    /// Marks as consumed each step that `args` inlines, and lists each
    /// parameter name of `args`.
    fn record_arguments(&mut self, args: &StepArguments)
        requires
            old(self).wf(),
        ensures
            final(self).wf(),
            forall|u: Seq<char>| is_used(old(self).used@, u) ==> is_used(final(self).used@, u),
            forall|u: Seq<char>| listed(old(self).params@, u) ==> listed(final(self).params@, u),
            forall|e: int|
                0 <= e < args.arguments@.len() ==> inline_consumed(
                    (#[trigger] args.arguments@[e]).1,
                    final(self).used@,
                ) && param_listed(args.arguments@[e].1, final(self).params@),
            final(self).open_channels == old(self).open_channels,
            final(self).all_step_args == old(self).all_step_args,
            final(self).done == old(self).done,
    {
        let mut e: usize = 0;
        while e < args.arguments.len()
            invariant
                e <= args.arguments@.len(),
                self.wf(),
                forall|u: Seq<char>| is_used(old(self).used@, u) ==> is_used(self.used@, u),
                forall|u: Seq<char>| listed(old(self).params@, u) ==> listed(self.params@, u),
                forall|k: int|
                    0 <= k < e ==> inline_consumed((#[trigger] args.arguments@[k]).1, self.used@)
                        && param_listed(args.arguments@[k].1, self.params@),
                self.open_channels == old(self).open_channels,
                self.all_step_args == old(self).all_step_args,
                self.done == old(self).done,
            decreases args.arguments@.len() - e,
        {
            match &args.arguments[e].1 {
                StepArgument::Step { sub } => {
                    let id = &sub.run.processor_config.id;
                    if !contains_str(&self.used, id) {
                        let ghost before = self.used@;
                        self.used.push(id.clone());
                        proof {
                            assert(self.used@[before.len() as int]@ == id@);
                            assert forall|u: Seq<char>| is_used(before, u) implies is_used(
                                self.used@,
                                u,
                            ) by {
                                let j = choose|j: int| 0 <= j < before.len() && before[j]@ == u;
                                assert(self.used@[j] == before[j]);
                            }
                            let all = self.all_step_args@;
                            assert forall|i: int, f: int|
                                0 <= i < all.len() && 0 <= f < all[i].arguments@.len() implies inline_consumed(
                                (#[trigger] all[i].arguments@[f]).1,
                                self.used@,
                            ) && param_listed(all[i].arguments@[f].1, self.params@) by {
                                assert(inline_consumed(all[i].arguments@[f].1, before));
                            }
                        }
                    }
                },
                StepArgument::Param { name } => {
                    self.note_param(name);
                },
                _ => {},
            }
            e = e + 1;
        }
    }

    pub fn new() -> (r: State)
        ensures
            r.wf(),
            r.open_channels@.len() == 0,
            r.all_step_args@.len() == 0,
            r.used@.len() == 0,
            r.params@.len() == 0,
    {
        State {
            open_channels: Vec::new(),
            all_step_args: Vec::new(),
            done: Vec::new(),
            used: Vec::new(),
            params: Vec::new(),
        }
    }

    /// Opens one writer target per name, for writer `writer_id` of step `step_id`.
    pub fn apply_writer_targets(
        &mut self,
        step_id: &String,
        writer_id: &String,
        names: &Vec<String>,
        ctx: &Ctx,
    )
        requires
            old(self).wf(),
        ensures
            final(self).wf(),
            final(self).all_step_args == old(self).all_step_args,
            final(self).done == old(self).done,
            final(self).used == old(self).used,
            final(self).params == old(self).params,
            final(self).open_channels@.len() == old(self).open_channels@.len() + names@.len(),
            forall|k: int|
                0 <= k < old(self).open_channels@.len() ==> final(self).open_channels@[k]
                    == old(self).open_channels@[k],
            forall|k: int|
                0 <= k < names@.len() ==> {
                    let t = #[trigger] final(self).open_channels@[old(self).open_channels@.len() + k];
                    &&& t.name == names@[k]
                    &&& t.step_id == *step_id
                    &&& t.writer_id == *writer_id
                    &&& t.possible_channels@ == ctx.channels@
                    &&& t.possible_serializations@ == ctx.serializations@
                },
    {
        let ghost start = self.open_channels@;
        let mut k: usize = 0;
        while k < names.len()
            invariant
                k <= names@.len(),
                self.all_step_args == old(self).all_step_args,
                self.done == old(self).done,
                self.used == old(self).used,
                self.params == old(self).params,
                start == old(self).open_channels@,
                self.open_channels@.len() == start.len() + k,
                forall|j: int| 0 <= j < start.len() ==> self.open_channels@[j] == start[j],
                forall|j: int|
                    0 <= j < k ==> {
                        let t = #[trigger] self.open_channels@[start.len() + j];
                        &&& t.name == names@[j]
                        &&& t.step_id == *step_id
                        &&& t.writer_id == *writer_id
                        &&& t.possible_channels@ == ctx.channels@
                        &&& t.possible_serializations@ == ctx.serializations@
                    },
            decreases names@.len() - k,
        {
            let target = TmpTarget {
                step_id: step_id.clone(),
                writer_id: writer_id.clone(),
                name: names[k].clone(),
                possible_channels: copy_strings(&ctx.channels),
                possible_serializations: copy_strings(&ctx.serializations),
            };
            self.open_channels.push(target);
            k = k + 1;
        }
    }

    /// Opens the targets that a writer argument lists under `targetIds`.
    pub fn apply_writer_arg(&mut self, step: &Step, arg: &StepArg, ctx: &Ctx)
        requires
            old(self).wf(),
        ensures
            final(self).wf(),
            final(self).all_step_args == old(self).all_step_args,
            final(self).used == old(self).used,
            final(self).params == old(self).params,
            final(self).done == old(self).done,
            forall|k: int|
                0 <= k < old(self).open_channels@.len() ==> final(self).open_channels@[k]
                    == old(self).open_channels@[k],
            exists|names: Seq<String>|
                #[trigger] opens_targets(
                    old(self).open_channels@,
                    final(self).open_channels@,
                    step.id,
                    arg.id,
                    *ctx,
                    names,
                ) && views(names) == listed_texts(arg.other, target_ids_key()),
    {
        proof {
            reveal_strlit("targetIds");
        }
        assert("targetIds"@ =~= target_ids_key());
        let names = match extract_string_array(&arg.other, "targetIds") {
            Some(v) => v,
            None => {
                let v: Vec<String> = Vec::new();
                assert(views(v@) =~= Seq::<Seq<char>>::empty());
                v
            },
        };
        self.apply_writer_targets(&step.id, &arg.id, &names, ctx);
        assert(opens_targets(
            old(self).open_channels@,
            self.open_channels@,
            step.id,
            arg.id,
            *ctx,
            names@,
        ));
    }

    /// The positions of the open writers that a reader may link to, in order.
    pub fn reader_candidates(&self, filter: &TargetFilter) -> (r: Vec<usize>)
        ensures
            r@ == fitting(
                self.open_channels@,
                filter.channel_types@,
                filter.ser_types@,
                self.open_channels@.len() as int,
            ),
            forall|k: int| 0 <= k < r@.len() ==> (#[trigger] r@[k]) < self.open_channels@.len(),
    {
        let mut r: Vec<usize> = Vec::new();
        let mut i: usize = 0;
        while i < self.open_channels.len()
            invariant
                i <= self.open_channels@.len(),
                r@ == fitting(self.open_channels@, filter.channel_types@, filter.ser_types@, i as int),
            decreases self.open_channels@.len() - i,
        {
            if filter.accepts(&self.open_channels[i]) {
                r.push(i);
            }
            i = i + 1;
        }
        proof {
            lemma_fitting_bounds(self.open_channels@, filter.channel_types@, filter.ser_types@, i as int);
        }
        r
    }

    /// The position among `candidates` of the one writer named `src`, if
    /// exactly one is.
    pub fn auto_link(&self, candidates: &Vec<usize>, src: &String) -> (r: Option<usize>)
        requires
            forall|k: int|
                0 <= k < candidates@.len() ==> (#[trigger] candidates@[k]) < self.open_channels@.len(),
        ensures
            ({
                let m = named(self.open_channels@, candidates@, src@, candidates@.len() as int);
                &&& m.len() == 1 ==> r == Some(m[0])
                &&& m.len() != 1 ==> r is None
            }),
            r matches Some(p) ==> p < candidates@.len() && self.open_channels@[candidates@[p as int] as int].name@
                == src@,
    {
        let mut m: Vec<usize> = Vec::new();
        let mut i: usize = 0;
        while i < candidates.len()
            invariant
                i <= candidates@.len(),
                forall|k: int|
                    0 <= k < candidates@.len() ==> (#[trigger] candidates@[k])
                        < self.open_channels@.len(),
                m@ == named(self.open_channels@, candidates@, src@, i as int),
            decreases candidates@.len() - i,
        {
            if self.open_channels[candidates[i]].name == *src {
                m.push(i);
            }
            i = i + 1;
        }
        proof {
            lemma_named_bounds(self.open_channels@, candidates@, src@, i as int);
            if m@.len() == 1 {
                lemma_named_member(self.open_channels@, candidates@, src@, i as int, 0);
            }
        }
        get_if_only_one(m)
    }

    /// Removes the open writer at `index` and hands it over.
    pub fn take_target(&mut self, index: usize) -> (r: TmpTarget)
        requires
            old(self).wf(),
            index < old(self).open_channels@.len(),
        ensures
            final(self).wf(),
            r == old(self).open_channels@[index as int],
            final(self).open_channels@ == old(self).open_channels@.remove(index as int),
            final(self).all_step_args == old(self).all_step_args,
            final(self).done == old(self).done,
            final(self).used == old(self).used,
            final(self).params == old(self).params,
    {
        self.open_channels.remove(index)
    }

    /// Every open writer, which no reader has claimed; none stay open.
    pub fn lingering(&mut self) -> (r: Vec<TmpTarget>)
        requires
            old(self).wf(),
        ensures
            final(self).wf(),
            r@ == old(self).open_channels@,
            final(self).open_channels@.len() == 0,
            final(self).all_step_args == old(self).all_step_args,
            final(self).done == old(self).done,
            final(self).used == old(self).used,
            final(self).params == old(self).params,
    {
        let mut r: Vec<TmpTarget> = Vec::new();
        std::mem::swap(&mut r, &mut self.open_channels);
        r
    }

    /// The position of the finished step `id`.
    pub fn find_step(&self, id: &String) -> (r: Option<usize>)
        requires
            self.wf(),
        ensures
            r matches Some(i) ==> i < self.all_step_args@.len() && step_index(
                self.all_step_args@,
                id@,
            ) == Some(i as int),
            r is None ==> step_index(self.all_step_args@, id@) is None,
    {
        let mut i: usize = 0;
        while i < self.all_step_args.len()
            invariant
                i <= self.all_step_args@.len(),
                self.wf(),
                forall|k: int| 0 <= k < i ==> self.all_step_args@[k].step.id@ != id@,
            decreases self.all_step_args@.len() - i,
        {
            if self.all_step_args[i].step.id == *id {
                proof {
                    let all = self.all_step_args@;
                    let c = choose|c: int| 0 <= c < all.len() && all[c].step.id@ == id@;
                    assert(c == i) by {
                        if c < i {
                        } else if c > i {
                            assert(all[i as int].step.id@ != all[c].step.id@);
                        }
                    }
                }
                return Some(i);
            }
            i = i + 1;
        }
        None
    }

    /// Registers `config` on the writer that `target` stands for.
    pub fn use_target(&mut self, target: &TmpTarget, config: ChannelConfig) -> (r: Result<
        (),
        SynthError,
    >)
        requires
            old(self).wf(),
        ensures
            final(self).wf(),
            final(self).open_channels == old(self).open_channels,
            final(self).done == old(self).done,
            final(self).used == old(self).used,
            final(self).params == old(self).params,
            final(self).all_step_args@.len() == old(self).all_step_args@.len(),
            forall|i: int|
                0 <= i < final(self).all_step_args@.len() ==> (#[trigger] final(self).all_step_args@[i]).step == old(self).all_step_args@[i].step,
            r is Ok ==> linked_config(
                final(self).all_step_args@,
                target.step_id@,
                target.writer_id@,
                target.name@,
            ) == Some(config),
            r == Err::<(), SynthError>(SynthError::UnknownStep) <==> step_index(
                old(self).all_step_args@,
                target.step_id@,
            ) is None,
            r == Err::<(), SynthError>(SynthError::NotAWriter) <==> writer_slot_taken(
                old(self).all_step_args@,
                target.step_id@,
                target.writer_id@,
            ),
            r is Ok || r == Err::<(), SynthError>(SynthError::UnknownStep) || r == Err::<
                (),
                SynthError,
            >(SynthError::NotAWriter),
            other_links_kept(
                old(self).all_step_args@,
                final(self).all_step_args@,
                target.step_id@,
                target.writer_id@,
                target.name@,
            ),
            forall|j: int|
                0 <= j < old(self).all_step_args@.len() && old(self).all_step_args@[j].step.id@
                    != target.step_id@ ==> final(self).all_step_args@[j] == old(
                    self,
                ).all_step_args@[j],
    {
        match self.find_step(&target.step_id) {
            None => Err(SynthError::UnknownStep),
            Some(i) => {
                let ghost before = self.all_step_args@;
                let mut args = self.all_step_args.remove(i);
                let res = args.use_target(&target.writer_id, &target.name, config);
                self.all_step_args.insert(i, args);
                proof {
                    assert(self.all_step_args@ =~= before.update(i as int, args));
                    assert forall|a: int, b: int|
                        0 <= a < b < self.all_step_args@.len() implies self.all_step_args@[a].step.id@
                        != self.all_step_args@[b].step.id@ by {
                        assert(before[a].step.id@ != before[b].step.id@);
                    }
                    assert forall|k: int| 0 <= k < self.all_step_args@.len() implies (#[trigger] self.all_step_args@[k]).wf() by {
                        if k != i {
                            assert(self.all_step_args@[k] == before[k]);
                        }
                    }
                    let all = self.all_step_args@;
                    assert(all[i as int].step.id@ == target.step_id@);
                    let c = choose|c: int| 0 <= c < all.len() && all[c].step.id@ == target.step_id@;
                    assert(c == i) by {
                        if c < i {
                            assert(all[c].step.id@ != all[i as int].step.id@);
                        } else if c > i {
                            assert(all[i as int].step.id@ != all[c].step.id@);
                        }
                    }
                    assert forall|s2: Seq<char>, w2: Seq<char>, n2: Seq<char>|
                        !(s2 == target.step_id@ && w2 == target.writer_id@ && n2 == target.name@)
                        implies #[trigger] linked_config(all, s2, w2, n2) == linked_config(
                        before,
                        s2,
                        w2,
                        n2,
                    ) by {
                        if exists|j: int| 0 <= j < before.len() && before[j].step.id@ == s2 {
                            let j = choose|j: int| 0 <= j < before.len() && before[j].step.id@ == s2;
                            lemma_step_index_at(before, s2, j);
                            lemma_step_index_at(all, s2, j);
                        } else {
                            assert forall|j: int| 0 <= j < all.len() implies all[j].step.id@ != s2 by {
                                assert(all[j].step.id@ == before[j].step.id@);
                            }
                        }
                    }
                }
                match res {
                    Ok(()) => Ok(()),
                    Err(TargetError::NotAWriter) => Err(SynthError::NotAWriter),
                }
            },
        }
    }

    /// Links the reader field `src` to the writer `target`: both ends receive
    /// the same configuration.
    pub fn link_reader(
        &mut self,
        fields: &mut Vec<(String, ChannelConfig)>,
        src: &String,
        target: &TmpTarget,
        config: ChannelConfig,
    ) -> (r: Result<(), SynthError>)
        requires
            old(self).wf(),
            keys_unique(old(fields)@),
        ensures
            final(self).wf(),
            keys_unique(final(fields)@),
            final(self).open_channels == old(self).open_channels,
            final(self).done == old(self).done,
            final(self).used == old(self).used,
            final(self).params == old(self).params,
            r is Ok ==> lookup(final(fields)@, src@) == Some(config) && linked_config(
                final(self).all_step_args@,
                target.step_id@,
                target.writer_id@,
                target.name@,
            ) == Some(config),
            r is Ok ==> forall|k: Seq<char>|
                k != src@ ==> lookup(final(fields)@, k) == lookup(old(fields)@, k),
            r is Err ==> final(fields)@ == old(fields)@,
            other_links_kept(
                old(self).all_step_args@,
                final(self).all_step_args@,
                target.step_id@,
                target.writer_id@,
                target.name@,
            ),
            r is Ok <==> (step_index(old(self).all_step_args@, target.step_id@) is Some
                && !writer_slot_taken(old(self).all_step_args@, target.step_id@, target.writer_id@)),
            r is Ok || r == Err::<(), SynthError>(SynthError::UnknownStep) || r == Err::<
                (),
                SynthError,
            >(SynthError::NotAWriter),
    {
        let copy = config.duplicate();
        let res = self.use_target(target, copy);
        if res.is_ok() {
            bind(fields, src.clone(), config);
        }
        res
    }

    /// Records a finished step; its id must be new.
    pub fn finish_step(&mut self, step_args: StepArguments) -> (r: Result<(), SynthError>)
        requires
            old(self).wf(),
            step_args.wf(),
        ensures
            final(self).wf(),
            final(self).open_channels == old(self).open_channels,
            forall|u: Seq<char>| is_used(old(self).used@, u) ==> is_used(final(self).used@, u),
            forall|u: Seq<char>| listed(old(self).params@, u) ==> listed(final(self).params@, u),
            r is Err ==> final(self).used == old(self).used && final(self).params == old(
                self,
            ).params,
            r is Ok ==> forall|e: int|
                0 <= e < step_args.arguments@.len() ==> inline_consumed(
                    (#[trigger] step_args.arguments@[e]).1,
                    final(self).used@,
                ) && param_listed(step_args.arguments@[e].1, final(self).params@),
            r is Err <==> step_index(old(self).all_step_args@, step_args.step.id@) is Some,
            r is Err ==> final(self).all_step_args == old(self).all_step_args,
            r is Ok ==> final(self).all_step_args@ == old(self).all_step_args@.push(step_args),
            r is Ok ==> forall|s: Seq<char>, w: Seq<char>, n: Seq<char>|
                step_index(old(self).all_step_args@, s) is Some ==> #[trigger] linked_config(
                    final(self).all_step_args@,
                    s,
                    w,
                    n,
                ) == linked_config(old(self).all_step_args@, s, w, n),
    {
        match self.find_step(&step_args.step.id) {
            Some(_) => Err(SynthError::DuplicateStep),
            None => {
                let id = step_args.step.id.clone();
                self.record_arguments(&step_args);
                let ghost prior = self.all_step_args@;
                self.all_step_args.push(step_args);
                self.done.push(id);
                proof {
                    let all = self.all_step_args@;
                    assert forall|i: int, e: int|
                        0 <= i < all.len() && 0 <= e < all[i].arguments@.len() implies inline_consumed(
                        (#[trigger] all[i].arguments@[e]).1,
                        self.used@,
                    ) && param_listed(all[i].arguments@[e].1, self.params@) by {
                        if i < prior.len() {
                            assert(all[i] == prior[i]);
                        }
                    }
                    assert forall|a: int, b: int| 0 <= a < b < all.len() implies all[a].step.id@
                        != all[b].step.id@ by {
                        if b == all.len() - 1 {
                            assert(old(self).all_step_args@[a].step.id@ != step_args.step.id@);
                        }
                    }
                    let prev = old(self).all_step_args@;
                    assert forall|s: Seq<char>, w: Seq<char>, n: Seq<char>|
                        step_index(prev, s) is Some implies #[trigger] linked_config(all, s, w, n)
                        == linked_config(prev, s, w, n) by {
                        let j = choose|j: int| 0 <= j < prev.len() && prev[j].step.id@ == s;
                        lemma_step_index_at(prev, s, j);
                        assert(all[j] == prev[j]);
                        lemma_step_index_at(all, s, j);
                    }
                }
                Ok(())
            },
        }
    }

    /// A parameter argument named `name`; the name joins the pipeline's list.
    pub fn add_param(&mut self, name: String) -> (r: StepArgument)
        requires
            old(self).wf(),
        ensures
            final(self).wf(),
            r == (StepArgument::Param { name }),
            forall|u: Seq<char>|
                listed(final(self).params@, u) <==> (listed(old(self).params@, u) || u == name@),
            listed(old(self).params@, name@) ==> final(self).params == old(self).params,
            !listed(old(self).params@, name@) ==> final(self).params@ == old(self).params@.push(
                name,
            ),
            final(self).open_channels == old(self).open_channels,
            final(self).all_step_args == old(self).all_step_args,
            final(self).done == old(self).done,
            final(self).used == old(self).used,
    {
        self.note_param(&name);
        StepArgument::Param { name }
    }

    /// Lists `name` among the parameters, once.
    fn note_param(&mut self, name: &String)
        requires
            old(self).wf(),
        ensures
            final(self).wf(),
            forall|u: Seq<char>|
                listed(final(self).params@, u) <==> (listed(old(self).params@, u) || u == name@),
            listed(old(self).params@, name@) ==> final(self).params == old(self).params,
            !listed(old(self).params@, name@) ==> final(self).params@ == old(self).params@.push(
                *name,
            ),
            final(self).open_channels == old(self).open_channels,
            final(self).all_step_args == old(self).all_step_args,
            final(self).done == old(self).done,
            final(self).used == old(self).used,
    {
        if !contains_str(&self.params, name) {
            let ghost before = self.params@;
            self.params.push(name.clone());
            proof {
                assert(self.params@[before.len() as int]@ == name@);
                assert forall|u: Seq<char>| listed(self.params@, u) <==> (listed(before, u) || u
                    == name@) by {
                    if listed(before, u) {
                        let j = choose|j: int| 0 <= j < before.len() && before[j]@ == u;
                        assert(self.params@[j] == before[j]);
                    }
                    if listed(self.params@, u) && u != name@ {
                        let j = choose|j: int| 0 <= j < self.params@.len() && self.params@[j]@ == u;
                        assert(before[j] == self.params@[j]);
                    }
                }
                let all = self.all_step_args@;
                assert forall|i: int, e: int|
                    0 <= i < all.len() && 0 <= e < all[i].arguments@.len() implies param_listed(
                    (#[trigger] all[i].arguments@[e]).1,
                    self.params@,
                ) by {
                    assert(param_listed(all[i].arguments@[e].1, before));
                }
            }
        }
    }

    /// Inlines the finished step at `done_index` as a sub-step argument; that
    /// step is then consumed and not emitted at the top level.
    fn inline_step(&mut self, done_index: usize, output: Output, serialization: String) -> (r:
        StepArgument)
        requires
            old(self).wf(),
            done_index < old(self).done@.len(),
        ensures
            final(self).wf(),
            is_used(final(self).used@, old(self).done@[done_index as int]@),
            forall|u: Seq<char>|
                is_used(final(self).used@, u) <==> (is_used(old(self).used@, u) || u
                    == old(self).done@[done_index as int]@),
            r matches StepArgument::Step { sub } && inlines(
                sub,
                old(self).all_step_args@[done_index as int],
                output,
                serialization,
            ),
            final(self).open_channels == old(self).open_channels,
            final(self).all_step_args == old(self).all_step_args,
            final(self).done == old(self).done,
            final(self).params == old(self).params,
    {
        let id = self.done[done_index].clone();
        let ghost before = self.used@;
        self.used.push(id);
        proof {
            assert(self.used@[before.len() as int]@ == self.done@[done_index as int]@);
            assert forall|u: Seq<char>| is_used(self.used@, u) <==> (is_used(before, u) || u
                == self.done@[done_index as int]@) by {
                if is_used(before, u) {
                    let j = choose|j: int| 0 <= j < before.len() && before[j]@ == u;
                    assert(self.used@[j] == before[j]);
                }
                if is_used(self.used@, u) && u != self.done@[done_index as int]@ {
                    let j = choose|j: int| 0 <= j < self.used@.len() && self.used@[j]@ == u;
                    assert(before[j] == self.used@[j]);
                }
            }
            let all = self.all_step_args@;
            assert forall|i: int, e: int|
                0 <= i < all.len() && 0 <= e < all[i].arguments@.len() implies inline_consumed(
                (#[trigger] all[i].arguments@[e]).1,
                self.used@,
            ) by {
                assert(inline_consumed(all[i].arguments@[e].1, before));
            }
        }
        let linked = &self.all_step_args[done_index];
        StepArgument::Step {
            sub: SubStep {
                run: RunThing {
                    processor_config: linked.step.duplicate(),
                    args: copy_arguments(&linked.arguments),
                },
                output,
                serialization,
            },
        }
    }

    /// Feeds the output of the finished step at `done_index` into an argument,
    /// with the serialization at `ser_choice` of those that both runners speak
    /// (see `process_serializations`); that step is then consumed and not
    /// emitted at the top level.
    pub fn process_output(
        &mut self,
        done_index: usize,
        output: Output,
        runners: &Vec<Runner>,
        ctx: &Ctx,
        ser_choice: usize,
    ) -> (r: Result<StepArgument, SynthError>)
        requires
            old(self).wf(),
            done_index < old(self).done@.len(),
        ensures
            final(self).wf(),
            final(self).open_channels == old(self).open_channels,
            final(self).all_step_args == old(self).all_step_args,
            final(self).done == old(self).done,
            final(self).params == old(self).params,
            ({
                let linked = old(self).all_step_args@[done_index as int];
                &&& r == Err::<StepArgument, SynthError>(SynthError::NoRunner) <==> !runner_found(
                    runners@,
                    linked.step.runner_id@,
                )
                &&& (runner_found(runners@, linked.step.runner_id@) && forall|j: int|
                    0 <= j < runners@.len() && runners@[j].id@ == linked.step.runner_id@
                        ==> ser_choice < common(
                        ctx.serializations@,
                        runners@[j].can_use_serialization@,
                    ).len()) ==> r is Ok
                &&& r is Err ==> final(self).used == old(self).used
                &&& r matches Ok(a) ==> {
                    &&& forall|u: Seq<char>|
                        is_used(final(self).used@, u) <==> (is_used(old(self).used@, u) || u
                            == old(self).done@[done_index as int]@)
                    &&& exists|j: int|
                        0 <= j < runners@.len() && runners@[j].id@ == linked.step.runner_id@
                            && ser_choice < common(
                            ctx.serializations@,
                            runners@[j].can_use_serialization@,
                        ).len() && inlined_as(
                            a,
                            linked,
                            output,
                            common(ctx.serializations@, runners@[j].can_use_serialization@)[ser_choice as int],
                        )
                }
            }),
    {
        let sers = match self.process_serializations(done_index, runners, ctx) {
            Ok(v) => v,
            Err(_) => {
                return Err(SynthError::NoRunner);
            },
        };
        if ser_choice >= sers.len() {
            return Err(SynthError::NoChoice);
        }
        let serialization = sers[ser_choice].clone();
        Ok(self.inline_step(done_index, output, serialization))
    }

    /// The serializations that both the current runner and the runner of the
    /// finished step at `done_index` speak, in the current runner's order.
    pub fn process_serializations(&self, done_index: usize, runners: &Vec<Runner>, ctx: &Ctx) -> (r:
        Result<Vec<String>, SynthError>)
        requires
            done_index < self.all_step_args@.len(),
        ensures
            r is Err <==> forall|j: int|
                0 <= j < runners@.len() ==> runners@[j].id@
                    != self.all_step_args@[done_index as int].step.runner_id@,
            r matches Ok(v) ==> exists|j: int|
                0 <= j < runners@.len() && runners@[j].id@
                    == self.all_step_args@[done_index as int].step.runner_id@ && v@
                    == crate::commands::user::common(
                    ctx.serializations@,
                    runners@[j].can_use_serialization@,
                ),
    {
        match find_runner(runners, &self.all_step_args[done_index].step.runner_id) {
            None => Err(SynthError::NoRunner),
            Some(j) => Ok(shared(&ctx.serializations, &runners[j].can_use_serialization)),
        }
    }

    /// The pipeline document: the finished steps not consumed as sub-steps, in
    /// the order they were finished, and the parameter names.
    pub fn complete(self) -> (r: Steps)
        requires
            self.wf(),
        ensures
            r.steps@.len() == kept_steps(self.all_step_args@, self.used@).len(),
            forall|k: int|
                0 <= k < r.steps@.len() ==> (#[trigger] r.steps@[k]).processor_config == kept_steps(
                    self.all_step_args@,
                    self.used@,
                )[k].step && r.steps@[k].args@ == kept_steps(self.all_step_args@, self.used@)[k].arguments@,
            r.params@ == self.params@,
            forall|k: int|
                0 <= k < r.steps@.len() ==> !is_used(
                    self.used@,
                    (#[trigger] r.steps@[k]).processor_config.id@,
                ),
            forall|i: int, j: int|
                0 <= i < j < r.steps@.len() ==> r.steps@[i].processor_config.id@
                    != r.steps@[j].processor_config.id@,
            forall|k: int, k2: int, e: int|
                #![trigger r.steps@[k2].args@[e], r.steps@[k]]
                0 <= k < r.steps@.len() && 0 <= k2 < r.steps@.len() && 0 <= e
                    < r.steps@[k2].args@.len() ==> inlines_not(
                    r.steps@[k2].args@[e].1,
                    r.steps@[k].processor_config.id@,
                ),
            forall|k: int, e: int|
                0 <= k < r.steps@.len() && 0 <= e < r.steps@[k].args@.len() ==> param_listed(
                    (#[trigger] r.steps@[k].args@[e]).1,
                    r.params@,
                ),
            forall|i: int, j: int| 0 <= i < j < r.params@.len() ==> r.params@[i]@ != r.params@[j]@,
    {
        proof {
            lemma_kept_not_used(self.all_step_args@, self.used@);
            lemma_kept_ids_unique(self.all_step_args@, self.used@);
            lemma_kept_consumed(self.all_step_args@, self.used@);
            lemma_kept_params(self.all_step_args@, self.used@, self.params@);
        }
        let ghost all = self.all_step_args@;
        let ghost used = self.used@;
        let n = self.all_step_args.len();
        let mut rest = self.all_step_args;
        let used_ids = self.used;
        let mut steps: Vec<RunThing> = Vec::new();
        let mut i: usize = 0;
        while i < n
            invariant
                i <= n,
                n == all.len(),
                used_ids@ == used,
                rest@ == all.subrange(i as int, n as int),
                steps@.len() == kept_steps(all.take(i as int), used).len(),
                forall|k: int|
                    0 <= k < steps@.len() ==> (#[trigger] steps@[k]).processor_config == kept_steps(
                        all.take(i as int),
                        used,
                    )[k].step && steps@[k].args@ == kept_steps(all.take(i as int), used)[k].arguments@,
            decreases n - i,
        {
            let args = rest.remove(0);
            let skip = crate::commands::user::contains_str(&used_ids, &args.step.id);
            proof {
                reveal(Seq::filter);
                assert(all.take(i + 1).drop_last() =~= all.take(i as int));
                assert(all.take(i + 1).last() == args);
            }
            if !skip {
                steps.push(args.into_value());
            }
            i = i + 1;
        }
        assert(all.take(i as int) =~= all);
        Steps { steps, params: self.params }
    }
}

proof fn lemma_named_member(open: Seq<TmpTarget>, cands: Seq<usize>, src: Seq<char>, n: int, k: int)
    requires
        0 <= n <= cands.len(),
        cands.len() <= usize::MAX,
        forall|j: int| 0 <= j < cands.len() ==> (#[trigger] cands[j]) < open.len(),
        0 <= k < named(open, cands, src, n).len(),
    ensures
        open[cands[named(open, cands, src, n)[k] as int] as int].name@ == src,
    decreases n,
{
    if n > 0 {
        if open[cands[n - 1] as int].name@ == src {
            if k < named(open, cands, src, n - 1).len() {
                lemma_named_member(open, cands, src, n - 1, k);
            }
        } else {
            lemma_named_member(open, cands, src, n - 1, k);
        }
    }
}

/// The key under which a writer argument lists its target names.
pub open spec fn target_ids_key() -> Seq<char> {
    seq!['t', 'a', 'r', 'g', 'e', 't', 'I', 'd', 's']
}

/// The texts of the JSON strings in the array under `key` of `v`, in order;
/// none when there is no such array.
pub open spec fn listed_texts(v: serde_json::Value, key: Seq<char>) -> Seq<Seq<char>> {
    match json_array_field(v, key) {
        Some(items) => texts_of(items, items.len() as int),
        None => Seq::empty(),
    }
}

/// The strings of the array under `key` of a JSON object; other elements are
/// skipped.
pub fn extract_string_array(from: &serde_json::Value, key: &str) -> (r: Option<Vec<String>>)
    ensures
        match json_array_field(*from, key@) {
            None => r is None,
            Some(items) => r matches Some(v) && views(v@) == texts_of(items, items.len() as int),
        },
{
    match array_field(from, key) {
        None => None,
        Some(items) => Some(texts(&items)),
    }
}

/// `step.writer.name`, how a writer is shown to the user.
pub open spec fn target_label(t: TmpTarget) -> Seq<char> {
    t.step_id@ + seq!['.'] + t.writer_id@ + seq!['.'] + t.name@
}

impl TmpTarget {
    pub fn label(&self) -> (r: String)
        ensures
            r@ == target_label(*self),
    {
        let mut r = self.step_id.clone();
        r.append(".");
        r.append(self.writer_id.as_str());
        r.append(".");
        r.append(self.name.as_str());
        proof {
            reveal_strlit(".");
        }
        assert(r@ =~= target_label(*self));
        r
    }

    /// The channels and serializations that both this writer and the reader
    /// of `ctx` speak, in the writer's order.
    pub fn link_choices(&self, ctx: &Ctx) -> (r: (Vec<String>, Vec<String>))
        ensures
            r.0@ == common(self.possible_channels@, ctx.channels@),
            r.1@ == common(self.possible_serializations@, ctx.serializations@),
    {
        (
            shared(&self.possible_channels, &ctx.channels),
            shared(&self.possible_serializations, &ctx.serializations),
        )
    }
}

/// Picks the channel type at `choice` of `types` and consumes one of its
/// options: the first in automatic mode, else the one at `option_choice`.
pub fn ask_user_for_channel(
    types: &Vec<String>,
    choice: usize,
    channel_options: &mut ChannelOptions,
    automatic: bool,
    option_choice: usize,
) -> (r: Result<(serde_json::Value, String), SynthError>)
    requires
        choice < types@.len(),
        old(channel_options).wf(),
    ensures
        final(channel_options).wf(),
        final(channel_options).initial == old(channel_options).initial,
        ({
            let ty = types@[choice as int];
            let index = if automatic {
                0
            } else {
                option_choice as int
            };
            match options_of(old(channel_options).entries@, ty@) {
                None => r == Err::<(serde_json::Value, String), SynthError>(
                    SynthError::UnknownChannel,
                ) && final(channel_options).entries@ == old(channel_options).entries@,
                Some(opts) => if index < opts.len() {
                    r == Ok::<(serde_json::Value, String), SynthError>((opts[index], ty))
                        && options_of(final(channel_options).entries@, ty@) == Some(
                        opts.remove(index),
                    ) && forall|k: Seq<char>|
                        k != ty@ ==> options_of(final(channel_options).entries@, k) == options_of(
                            old(channel_options).entries@,
                            k,
                        )
                } else {
                    r == Err::<(serde_json::Value, String), SynthError>(SynthError::NoOptionLeft)
                        && final(channel_options).entries@ == old(channel_options).entries@
                },
            }
        }),
{
    let ty = &types[choice];
    let index = if automatic {
        0
    } else {
        option_choice
    };
    match channel_options.take(ty, index) {
        Ok(v) => Ok((v, ty.clone())),
        Err(e) => Err(e),
    }
}

/// The argument for plain text: the JSON value it spells if `parsed` holds
/// one, else the text as a JSON string.
pub fn plain_argument(parsed: Option<serde_json::Value>, text: String) -> (r: StepArgument)
    ensures
        r == (StepArgument::Plain {
            value: match parsed {
                Some(v) => v,
                None => json_string(text@),
            },
        }),
{
    match parsed {
        Some(value) => StepArgument::Plain { value },
        None => StepArgument::Plain { value: string_value(text) },
    }
}

/// The argument for plain text typed by the user or taken as the default: the
/// JSON value the text spells, else the text as a JSON string.
pub fn plain_value(text: String) -> (r: StepArgument)
    ensures
        r == (StepArgument::Plain {
            value: match json_parsed(text@) {
                Some(v) => v,
                None => json_string(text@),
            },
        }),
{
    let parsed = parse_json(text.as_str());
    plain_argument(parsed, text)
}

/// How a declared argument is resolved.
#[derive(Clone, Copy, Debug, PartialEq, Eq, Structural)]
pub enum ArgKind {
    StreamReader,
    StreamWriter,
    /// Any other type: a value supplied inline, from a file, from another
    /// step's output or as a parameter.
    Literal,
}

pub open spec fn reader_tag() -> Seq<char> {
    seq!['s', 't', 'r', 'e', 'a', 'm', 'R', 'e', 'a', 'd', 'e', 'r']
}

pub open spec fn writer_tag() -> Seq<char> {
    seq!['s', 't', 'r', 'e', 'a', 'm', 'W', 'r', 'i', 't', 'e', 'r']
}

/// The kind of an argument from its declared type.
pub fn arg_kind(ty: &String) -> (r: ArgKind)
    ensures
        ty@ == reader_tag() ==> r == ArgKind::StreamReader,
        ty@ == writer_tag() ==> r == ArgKind::StreamWriter,
        ty@ != reader_tag() && ty@ != writer_tag() ==> r == ArgKind::Literal,
{
    let reader = String::from_str("streamReader");
    let writer = String::from_str("streamWriter");
    proof {
        reveal_strlit("streamReader");
        reveal_strlit("streamWriter");
    }
    assert(reader@ =~= reader_tag());
    assert(writer@ =~= writer_tag());
    if *ty == reader {
        ArgKind::StreamReader
    } else if *ty == writer {
        ArgKind::StreamWriter
    } else {
        ArgKind::Literal
    }
}

/// A step consumed as a sub-step is never emitted at the top level.
pub proof fn lemma_kept_not_used(all: Seq<StepArguments>, used: Seq<String>)
    ensures
        forall|k: int|
            0 <= k < kept_steps(all, used).len() ==> !is_used(
                used,
                (#[trigger] kept_steps(all, used)[k]).step.id@,
            ),
{
    let pred = not_used(used);
    assert forall|k: int| 0 <= k < kept_steps(all, used).len() implies !is_used(
        used,
        (#[trigger] kept_steps(all, used)[k]).step.id@,
    ) by {
        all.lemma_filter_pred(pred, k);
    }
}

/// Each step that an emitted step inlines is consumed, where each step that a
/// finished step inlines is.
pub proof fn lemma_kept_consumed(all: Seq<StepArguments>, used: Seq<String>)
    requires
        forall|i: int, e: int|
            0 <= i < all.len() && 0 <= e < all[i].arguments@.len() ==> inline_consumed(
                (#[trigger] all[i].arguments@[e]).1,
                used,
            ),
    ensures
        forall|k: int, e: int|
            0 <= k < kept_steps(all, used).len() && 0 <= e < kept_steps(all, used)[k].arguments@.len()
                ==> inline_consumed((#[trigger] kept_steps(all, used)[k].arguments@[e]).1, used),
{
    let pred = not_used(used);
    let kept = kept_steps(all, used);
    assert forall|k: int, e: int|
        0 <= k < kept.len() && 0 <= e < kept[k].arguments@.len() implies inline_consumed(
        (#[trigger] kept[k].arguments@[e]).1,
        used,
    ) by {
        assert(kept.contains(kept[k]));
        all.lemma_filter_contains_rev(pred, kept[k]);
        let m = choose|m: int| 0 <= m < all.len() && all[m] == kept[k];
        assert(inline_consumed(all[m].arguments@[e].1, used));
    }
}

/// Each parameter name of an emitted step is listed, where each of a finished
/// step is.
pub proof fn lemma_kept_params(all: Seq<StepArguments>, used: Seq<String>, params: Seq<String>)
    requires
        forall|i: int, e: int|
            0 <= i < all.len() && 0 <= e < all[i].arguments@.len() ==> param_listed(
                (#[trigger] all[i].arguments@[e]).1,
                params,
            ),
    ensures
        forall|k: int, e: int|
            0 <= k < kept_steps(all, used).len() && 0 <= e < kept_steps(all, used)[k].arguments@.len()
                ==> param_listed((#[trigger] kept_steps(all, used)[k].arguments@[e]).1, params),
{
    let pred = not_used(used);
    let kept = kept_steps(all, used);
    assert forall|k: int, e: int|
        0 <= k < kept.len() && 0 <= e < kept[k].arguments@.len() implies param_listed(
        (#[trigger] kept[k].arguments@[e]).1,
        params,
    ) by {
        assert(kept.contains(kept[k]));
        all.lemma_filter_contains_rev(pred, kept[k]);
        let m = choose|m: int| 0 <= m < all.len() && all[m] == kept[k];
        assert(param_listed(all[m].arguments@[e].1, params));
    }
}

/// Across a synthesis no option of a channel is taken more often than the
/// catalogue offered it: each pick consumes one offered occurrence.
pub proof fn lemma_options_single_use(o: ChannelOptions, ty: Seq<char>, v: serde_json::Value)
    requires
        o.wf(),
    ensures
        taken_from(o.taken@, ty).count(v) <= pool(o.initial@, ty).count(v),
{
    broadcast use vstd::multiset::group_multiset_axioms;

    assert(pool(o.initial@, ty) == pool(o.entries@, ty).add(taken_from(o.taken@, ty)));
}

/// The emitted steps have distinct ids when the finished steps do.
pub proof fn lemma_kept_ids_unique(all: Seq<StepArguments>, used: Seq<String>)
    requires
        forall|i: int, j: int| 0 <= i < j < all.len() ==> all[i].step.id@ != all[j].step.id@,
    ensures
        forall|i: int, j: int|
            0 <= i < j < kept_steps(all, used).len() ==> kept_steps(all, used)[i].step.id@
                != kept_steps(all, used)[j].step.id@,
    decreases all.len(),
{
    let pred = not_used(used);
    if all.len() > 0 {
        let init = all.drop_last();
        lemma_kept_ids_unique(init, used);
        reveal(Seq::filter);
        let sub = kept_steps(init, used);
        assert(all.filter(pred) == if pred(all.last()) {
            init.filter(pred).push(all.last())
        } else {
            init.filter(pred)
        });
        if pred(all.last()) {
            assert forall|i: int| 0 <= i < sub.len() implies sub[i].step.id@
                != all.last().step.id@ by {
                assert(sub.contains(sub[i]));
                init.lemma_filter_contains_rev(pred, sub[i]);
                let m = choose|m: int| 0 <= m < init.len() && init[m] == sub[i];
                assert(all[m] == init[m]);
                assert(all.last() == all[all.len() - 1]);
            }
        }
    }
}

/// Picking the option at `i` takes exactly that one occurrence out of the
/// channel's pool; nothing else leaves it.
pub proof fn lemma_pick_removes_one(opts: Seq<serde_json::Value>, i: int)
    requires
        0 <= i < opts.len(),
    ensures
        opts.remove(i).len() == opts.len() - 1,
        opts.remove(i).to_multiset().insert(opts[i]) == opts.to_multiset(),
{
    broadcast use vstd::multiset::group_multiset_axioms;

    opts.to_multiset_ensures();
    assert(opts.to_multiset().count(opts[i]) > 0);
    assert(opts.remove(i).to_multiset().insert(opts[i]) =~= opts.to_multiset());
}

/// Resolves the source `src` of a stream reader of the current step from
/// the user's answers: links it to an open writer, which then holds the
/// same configuration, or to a fresh channel option.
#[verifier::rlimit(50)]
pub fn ask_channel_config(
    state: &mut State,
    fields: &mut Vec<(String, ChannelConfig)>,
    src: &String,
    ctx: &Ctx,
    options: &mut ChannelOptions,
    automatic: bool,
    choice: SourceChoice,
) -> (r: Result<(), SynthError>)
    requires
        old(state).wf(),
        old(options).wf(),
        keys_unique(old(fields)@),
    ensures
        final(state).wf(),
        final(options).wf(),
        final(options).initial == old(options).initial,
        keys_unique(final(fields)@),
        final(state).done == old(state).done,
        final(state).used == old(state).used,
        final(state).params == old(state).params,
        forall|k: Seq<char>| k != src@ ==> lookup(final(fields)@, k) == lookup(old(fields)@, k),
        match linked_writer(old(state).open_channels@, *ctx, src@, automatic, choice.writer) {
            Some(t) => other_links_kept(
                old(state).all_step_args@,
                final(state).all_step_args@,
                t.step_id@,
                t.writer_id@,
                t.name@,
            ),
            None => final(state).all_step_args == old(state).all_step_args,
        },
        ({
            let w = linked_writer(old(state).open_channels@, *ctx, src@, automatic, choice.writer);
            let types = offered_types(w, *ctx);
            let sers = offered_sers(w, *ctx);
            let index = if automatic {
                0
            } else {
                choice.option as int
            };
            &&& r == Err::<(), SynthError>(SynthError::NoChoice) <==> (choice.channel_type
                >= types.len() || choice.serialization >= sers.len())
            &&& r is Ok <==> (choice.channel_type < types.len() && choice.serialization
                < sers.len() && option_available(
                old(options).entries@,
                types[choice.channel_type as int]@,
                index,
            ) && match w {
                Some(t) => writer_ready(old(state).all_step_args@, t),
                None => true,
            })
            &&& r is Ok ==> {
                let ty = types[choice.channel_type as int];
                let opts = options_of(old(options).entries@, ty@)->Some_0;
                let config = ChannelConfig {
                    ty,
                    serialization: sers[choice.serialization as int],
                    config: opts[index],
                };
                &&& options_of(old(options).entries@, ty@) is Some
                &&& index < opts.len()
                &&& options_of(final(options).entries@, ty@) == Some(opts.remove(index))
                &&& lookup(final(fields)@, src@) == Some(config)
                &&& match w {
                    Some(t) => {
                        &&& final(state).open_channels@ == old(state).open_channels@.remove(
                            candidates_for(old(state).open_channels@, *ctx)[picked_writer(
                                old(state).open_channels@,
                                *ctx,
                                src@,
                                automatic,
                                choice.writer,
                            )] as int,
                        )
                        &&& linked_config(
                            final(state).all_step_args@,
                            t.step_id@,
                            t.writer_id@,
                            t.name@,
                        ) == Some(config)
                    },
                    None => final(state).open_channels == old(state).open_channels
                        && final(state).all_step_args == old(state).all_step_args,
                }
            }
            &&& (choice.channel_type < types.len() && choice.serialization < sers.len()) ==> ((r
                == Err::<(), SynthError>(SynthError::UnknownChannel) <==> options_of(
                old(options).entries@,
                types[choice.channel_type as int]@,
            ) is None) && (r == Err::<(), SynthError>(SynthError::NoOptionLeft) <==> (options_of(
                old(options).entries@,
                types[choice.channel_type as int]@,
            ) matches Some(opts) && index >= opts.len())))
        }),
{
    let filter = create_valid_tmp_target_fn(&ctx.channels, &ctx.serializations);
    let candidates = state.reader_candidates(&filter);
    let auto = if automatic {
        state.auto_link(&candidates, src)
    } else {
        None
    };
    let n = match auto {
        Some(p) => p,
        None => choice.writer,
    };
    let linked = n < candidates.len();
    let (types, sers) = if linked {
        state.open_channels[candidates[n]].link_choices(ctx)
    } else {
        (copy_strings(&ctx.channels), copy_strings(&ctx.serializations))
    };
    if choice.channel_type >= types.len() || choice.serialization >= sers.len() {
        return Err(SynthError::NoChoice);
    }
    let (value, ty) = match ask_user_for_channel(
        &types,
        choice.channel_type,
        options,
        automatic,
        choice.option,
    ) {
        Ok(picked) => picked,
        Err(e) => {
            return Err(e);
        },
    };
    let ser = ask_user_for_serialization(&sers, choice.serialization);
    let config = ChannelConfig::new(ty, ser, value);
    if linked {
        let target = state.take_target(candidates[n]);
        state.link_reader(fields, src, &target, config)
    } else {
        bind(fields, src.clone(), config);
        Ok(())
    }
}

/// Gives an open writer that no reader claimed a channel of its own, from the
/// user's answers (the writer position of `choice` is not used).
pub fn configure_lingering(
    state: &mut State,
    target: &TmpTarget,
    options: &mut ChannelOptions,
    automatic: bool,
    choice: SourceChoice,
) -> (r: Result<(), SynthError>)
    requires
        old(state).wf(),
        old(options).wf(),
    ensures
        final(state).wf(),
        final(options).wf(),
        final(options).initial == old(options).initial,
        final(state).open_channels == old(state).open_channels,
        final(state).done == old(state).done,
        final(state).used == old(state).used,
        final(state).params == old(state).params,
        other_links_kept(
            old(state).all_step_args@,
            final(state).all_step_args@,
            target.step_id@,
            target.writer_id@,
            target.name@,
        ),
        ({
            let types = target.possible_channels@;
            let sers = target.possible_serializations@;
            let index = if automatic {
                0
            } else {
                choice.option as int
            };
            &&& r == Err::<(), SynthError>(SynthError::NoChoice) <==> (choice.channel_type
                >= types.len() || choice.serialization >= sers.len())
            &&& r is Ok <==> (choice.channel_type < types.len() && choice.serialization
                < sers.len() && option_available(
                old(options).entries@,
                types[choice.channel_type as int]@,
                index,
            ) && writer_ready(old(state).all_step_args@, *target))
            &&& r is Ok ==> {
                let ty = types[choice.channel_type as int];
                let opts = options_of(old(options).entries@, ty@)->Some_0;
                let config = ChannelConfig {
                    ty,
                    serialization: sers[choice.serialization as int],
                    config: opts[index],
                };
                &&& options_of(old(options).entries@, ty@) is Some
                &&& index < opts.len()
                &&& options_of(final(options).entries@, ty@) == Some(opts.remove(index))
                &&& linked_config(
                    final(state).all_step_args@,
                    target.step_id@,
                    target.writer_id@,
                    target.name@,
                ) == Some(config)
            }
            &&& (choice.channel_type < types.len() && choice.serialization < sers.len()) ==> ((r
                == Err::<(), SynthError>(SynthError::UnknownChannel) <==> options_of(
                old(options).entries@,
                types[choice.channel_type as int]@,
            ) is None) && (r == Err::<(), SynthError>(SynthError::NoOptionLeft) <==> (options_of(
                old(options).entries@,
                types[choice.channel_type as int]@,
            ) matches Some(opts) && index >= opts.len())))
        }),
{
    if choice.channel_type >= target.possible_channels.len() || choice.serialization
        >= target.possible_serializations.len() {
        return Err(SynthError::NoChoice);
    }
    let (value, ty) = match ask_user_for_channel(
        &target.possible_channels,
        choice.channel_type,
        options,
        automatic,
        choice.option,
    ) {
        Ok(picked) => picked,
        Err(e) => {
            return Err(e);
        },
    };
    let ser = ask_user_for_serialization(&target.possible_serializations, choice.serialization);
    let config = ChannelConfig::new(ty, ser, value);
    state.use_target(target, config)
}

} // verus!
