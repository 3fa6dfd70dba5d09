use vstd::prelude::*;

use crate::assoc::{
    bind, find_key, has_key, keys_unique, lemma_lookup_at, lemma_lookup_frame, lookup,
};
use crate::channel::{kept_by, ChannelConfig};
use crate::json::{schema_accepts, schema_verdict};
use crate::runner::Runner;
use crate::text::{decimal, decimal_string};

verus! {

/// One declared argument of a step.
pub struct StepArg {
    pub id: String,
    pub ty: String,
    /// The descriptor's remaining fields, as a JSON object.
    pub other: serde_json::Value,
    pub default: bool,
    pub value: String,
    pub description: String,
}

/// One node of a pipeline, as loaded from its descriptor.
pub struct Step {
    pub id: String,
    pub runner_id: String,
    pub config: serde_json::Value,
    pub build: Option<String>,
    pub args: Vec<StepArg>,
    pub location: Option<String>,
}

/// Which stream of a sub-step is captured.
#[derive(Clone, Copy, Debug, PartialEq, Eq, Structural)]
pub enum Output {
    Stdout,
    Stderr,
}

/// A resolved step: its descriptor and its arguments by id.
pub struct RunThing {
    pub processor_config: Step,
    pub args: Vec<(String, StepArgument)>,
}

/// Another step whose captured output feeds an argument.
pub struct SubStep {
    pub run: RunThing,
    pub serialization: String,
    pub output: Output,
}

/// How one argument of a step is supplied.
pub enum StepArgument {
    StreamReader { fields: Vec<(String, ChannelConfig)> },
    StreamWriter { fields: Vec<(String, ChannelConfig)> },
    File { path: String, serialization: String },
    Plain { value: serde_json::Value },
    Step { sub: SubStep },
    Param { name: String },
}

pub fn copy_opt_string(o: &Option<String>) -> (r: Option<String>)
    ensures
        r == *o,
{
    match o {
        Some(s) => Some(s.clone()),
        None => None,
    }
}

impl StepArg {
    pub fn duplicate(&self) -> (r: Self)
        ensures
            r == *self,
    {
        StepArg {
            id: self.id.clone(),
            ty: self.ty.clone(),
            other: self.other.clone(),
            default: self.default,
            value: self.value.clone(),
            description: self.description.clone(),
        }
    }
}

impl Step {
    /// Equal field by field, the arguments by their sequence.
    pub open spec fn same_as(self, o: Step) -> bool {
        &&& self.id == o.id
        &&& self.runner_id == o.runner_id
        &&& self.config == o.config
        &&& self.build == o.build
        &&& self.args@ == o.args@
        &&& self.location == o.location
    }

    pub fn duplicate(&self) -> (r: Self)
        ensures
            r.same_as(*self),
    {
        let mut args: Vec<StepArg> = Vec::new();
        let mut i: usize = 0;
        while i < self.args.len()
            invariant
                i <= self.args@.len(),
                args@ == self.args@.take(i as int),
            decreases self.args@.len() - i,
        {
            args.push(self.args[i].duplicate());
            i = i + 1;
            assert(args@ =~= self.args@.take(i as int));
        }
        assert(self.args@.take(i as int) =~= self.args@);
        Step {
            id: self.id.clone(),
            runner_id: self.runner_id.clone(),
            config: self.config.clone(),
            build: copy_opt_string(&self.build),
            args,
            location: copy_opt_string(&self.location),
        }
    }
}

/// A deep copy of a stream's fields.
pub fn copy_fields(fields: &Vec<(String, ChannelConfig)>) -> (r: Vec<(String, ChannelConfig)>)
    ensures
        r@ == fields@,
{
    let mut r: Vec<(String, ChannelConfig)> = Vec::new();
    let mut i: usize = 0;
    while i < fields.len()
        invariant
            i <= fields@.len(),
            r@ == fields@.take(i as int),
        decreases fields@.len() - i,
    {
        r.push((fields[i].0.clone(), fields[i].1.duplicate()));
        i = i + 1;
        assert(r@ =~= fields@.take(i as int));
    }
    assert(fields@.take(i as int) =~= fields@);
    r
}

/// Whether `b` is a deep copy of `a`: equal variants, equal fields, and
/// inlined steps equal field by field with their arguments deep copies in turn.
pub open spec fn same_argument(a: StepArgument, b: StepArgument) -> bool
    decreases a,
{
    match a {
        StepArgument::StreamReader { fields } => b matches StepArgument::StreamReader { fields: f }
            && f@ == fields@,
        StepArgument::StreamWriter { fields } => b matches StepArgument::StreamWriter { fields: f }
            && f@ == fields@,
        StepArgument::File { .. } => b == a,
        StepArgument::Plain { .. } => b == a,
        StepArgument::Param { .. } => b == a,
        StepArgument::Step { sub } => match b {
            StepArgument::Step { sub: c } => {
                &&& c.output == sub.output
                &&& c.serialization == sub.serialization
                &&& c.run.processor_config.same_as(sub.run.processor_config)
                &&& c.run.args@.len() == sub.run.args@.len()
                &&& forall|i: int|
                    0 <= i < sub.run.args@.len() ==> c.run.args@[i].0 == sub.run.args@[i].0
                        && same_argument(#[trigger] sub.run.args@[i].1, c.run.args@[i].1)
            },
            _ => false,
        },
    }
}

/// A deep copy of an argument.
pub fn copy_argument(a: &StepArgument) -> (r: StepArgument)
    ensures
        same_argument(*a, r),
    decreases a,
{
    match a {
        StepArgument::StreamReader { fields } => StepArgument::StreamReader {
            fields: copy_fields(fields),
        },
        StepArgument::StreamWriter { fields } => StepArgument::StreamWriter {
            fields: copy_fields(fields),
        },
        StepArgument::File { path, serialization } => StepArgument::File {
            path: path.clone(),
            serialization: serialization.clone(),
        },
        StepArgument::Plain { value } => StepArgument::Plain { value: value.clone() },
        StepArgument::Step { sub } => StepArgument::Step {
            sub: SubStep {
                run: RunThing {
                    processor_config: sub.run.processor_config.duplicate(),
                    args: copy_arguments(&sub.run.args),
                },
                serialization: sub.serialization.clone(),
                output: sub.output,
            },
        },
        StepArgument::Param { name } => StepArgument::Param { name: name.clone() },
    }
}

/// A deep copy of a list of arguments; the ids are kept.
pub fn copy_arguments(args: &Vec<(String, StepArgument)>) -> (r: Vec<(String, StepArgument)>)
    ensures
        r@.len() == args@.len(),
        forall|i: int|
            0 <= i < args@.len() ==> (#[trigger] r@[i]).0 == args@[i].0 && same_argument(
                args@[i].1,
                r@[i].1,
            ),
    decreases args,
{
    let mut r: Vec<(String, StepArgument)> = Vec::new();
    let mut i: usize = 0;
    while i < args.len()
        invariant
            i <= args@.len(),
            r@.len() == i,
            forall|j: int|
                0 <= j < i ==> (#[trigger] r@[j]).0 == args@[j].0 && same_argument(
                    args@[j].1,
                    r@[j].1,
                ),
        decreases args@.len() - i,
    {
        proof {
            assert(decreases_to!(args => args@[i as int].1));
        }
        r.push((args[i].0.clone(), copy_argument(&args[i].1)));
        i = i + 1;
    }
    r
}

/// Stream fields have unique keys.
pub open spec fn argument_wf(a: StepArgument) -> bool {
    match a {
        StepArgument::StreamReader { fields } => keys_unique(fields@),
        StepArgument::StreamWriter { fields } => keys_unique(fields@),
        _ => true,
    }
}

/// The configuration that the stream writer `id` holds for `field`.
pub open spec fn writer_field(args: Seq<(String, StepArgument)>, id: Seq<char>, field: Seq<char>) -> Option<
    ChannelConfig,
> {
    match lookup(args, id) {
        Some(StepArgument::StreamWriter { fields }) => lookup(fields@, field),
        _ => None,
    }
}

/// The configuration that the stream reader `id` holds for `field`.
pub open spec fn reader_field(args: Seq<(String, StepArgument)>, id: Seq<char>, field: Seq<char>) -> Option<
    ChannelConfig,
> {
    match lookup(args, id) {
        Some(StepArgument::StreamReader { fields }) => lookup(fields@, field),
        _ => None,
    }
}

/// The arguments of one step while it is being resolved.
pub struct StepArguments {
    pub step: Step,
    pub arguments: Vec<(String, StepArgument)>,
}

/// Why a writer could not take a channel configuration.
#[derive(Debug, PartialEq, Eq, Structural)]
pub enum TargetError {
    /// The argument id is bound to something other than a stream writer.
    NotAWriter,
}

impl StepArguments {
    /// Argument ids and stream fields are unique.
    pub open spec fn wf(self) -> bool {
        &&& keys_unique(self.arguments@)
        &&& forall|i: int|
            0 <= i < self.arguments@.len() ==> argument_wf(#[trigger] self.arguments@[i].1)
    }

    pub fn new(from: &Step) -> (r: Self)
        ensures
            r.step.same_as(*from),
            r.arguments@.len() == 0,
            r.wf(),
    {
        StepArguments { step: from.duplicate(), arguments: Vec::new() }
    }

    /// Binds the argument `id`, replacing an earlier binding.
    pub fn add_argument(&mut self, id: String, value: StepArgument)
        requires
            old(self).wf(),
            argument_wf(value),
        ensures
            final(self).wf(),
            final(self).step == old(self).step,
            final(self).arguments@ == crate::assoc::bound(old(self).arguments@, id, value),
            lookup(final(self).arguments@, id@) == Some(value),
            forall|k: Seq<char>|
                k != id@ ==> lookup(final(self).arguments@, k) == lookup(old(self).arguments@, k),
    {
        bind(&mut self.arguments, id, value);
        assert forall|i: int| 0 <= i < self.arguments@.len() implies argument_wf(
            #[trigger] self.arguments@[i].1,
        ) by {
            if i < old(self).arguments@.len() && self.arguments@[i] == old(self).arguments@[i] {
            }
        }
    }

    /// Registers `config` under `field` of the stream writer `id`, creating the
    /// writer if the step has no argument `id` yet.
    pub fn use_target(&mut self, id: &String, field: &String, config: ChannelConfig) -> (r: Result<
        (),
        TargetError,
    >)
        requires
            old(self).wf(),
        ensures
            final(self).wf(),
            final(self).step == old(self).step,
            r is Err <==> (lookup(old(self).arguments@, id@) matches Some(a) && !(
            a is StreamWriter)),
            r is Err ==> final(self).arguments@ == old(self).arguments@,
            r is Ok ==> writer_field(final(self).arguments@, id@, field@) == Some(config),
            r is Ok ==> forall|f: Seq<char>|
                f != field@ ==> writer_field(final(self).arguments@, id@, f) == writer_field(
                    old(self).arguments@,
                    id@,
                    f,
                ),
            r is Ok ==> forall|k: Seq<char>|
                k != id@ ==> lookup(final(self).arguments@, k) == lookup(old(self).arguments@, k),
            forall|e: int|
                0 <= e < final(self).arguments@.len() ==> (e < old(self).arguments@.len()
                    && final(self).arguments@[e] == old(self).arguments@[e]) || (#[trigger] final(self).arguments@[e]).1 is StreamWriter,
    {
        match find_key(&self.arguments, id) {
            Some(i) => {
                proof {
                    lemma_lookup_at(self.arguments@, id@, i as int);
                }
                let is_writer = match &self.arguments[i].1 {
                    StepArgument::StreamWriter { .. } => true,
                    _ => false,
                };
                if !is_writer {
                    return Err(TargetError::NotAWriter);
                }
                let ghost old_args = self.arguments@;
                let (key, arg) = self.arguments.remove(i);
                let mut fields = match arg {
                    StepArgument::StreamWriter { fields } => fields,
                    _ => Vec::new(),
                };
                assert(argument_wf(old_args[i as int].1));
                bind(&mut fields, field.clone(), config);
                let ghost new_arg = StepArgument::StreamWriter { fields };
                self.arguments.insert(i, (key, StepArgument::StreamWriter { fields }));
                assert(self.arguments@ =~= old_args.update(i as int, (key, new_arg)));
                proof {
                    assert(keys_unique(self.arguments@));
                    lemma_lookup_at(self.arguments@, id@, i as int);
                    lemma_lookup_frame(old_args, self.arguments@, id@);
                    assert forall|j: int| 0 <= j < self.arguments@.len() implies argument_wf(
                        #[trigger] self.arguments@[j].1,
                    ) by {
                        if j != i {
                            assert(self.arguments@[j] == old_args[j]);
                        }
                    }
                }
                Ok(())
            },
            None => {
                let mut fields: Vec<(String, ChannelConfig)> = Vec::new();
                bind(&mut fields, field.clone(), config);
                let ghost old_args = self.arguments@;
                self.arguments.push((id.clone(), StepArgument::StreamWriter { fields }));
                proof {
                    assert(keys_unique(self.arguments@));
                    lemma_lookup_at(self.arguments@, id@, old_args.len() as int);
                    lemma_lookup_frame(old_args, self.arguments@, id@);
                    assert forall|j: int| 0 <= j < self.arguments@.len() implies argument_wf(
                        #[trigger] self.arguments@[j].1,
                    ) by {
                        if j < old_args.len() {
                            assert(self.arguments@[j] == old_args[j]);
                        }
                    }
                }
                Ok(())
            },
        }
    }

    pub fn into_runthing(self) -> (r: RunThing)
        ensures
            r.processor_config == self.step,
            r.args@ == self.arguments@,
    {
        RunThing { processor_config: self.step, args: self.arguments }
    }

    pub fn into_value(self) -> (r: RunThing)
        ensures
            r.processor_config == self.step,
            r.args@ == self.arguments@,
    {
        self.into_runthing()
    }
}

/// Whether the runner's schema accepts the step configuration.
pub fn config_is_valid(schema: &jsonschema::JSONSchema, config: &serde_json::Value) -> (r: bool)
    ensures
        r == schema_verdict(*schema, *config),
{
    schema_accepts(schema, config)
}

/// Whether `i` is the first position of a runner with id `id`.
pub open spec fn is_first_runner(runners: Seq<Runner>, id: Seq<char>, i: int) -> bool {
    &&& 0 <= i < runners.len()
    &&& runners[i].id@ == id
    &&& forall|k: int| 0 <= k < i ==> runners[k].id@ != id
}

/// Whether the first runner named by the step accepts its configuration.
pub open spec fn step_accepted(runners: Seq<Runner>, s: Step) -> bool {
    exists|i: int| is_first_runner(runners, s.runner_id@, i) && schema_verdict(runners[i].schema, s.config)
}

/// The verdict on each step.
pub open spec fn step_verdicts_of(steps: Seq<Step>, runners: Seq<Runner>) -> Seq<bool> {
    Seq::new(steps.len(), |i: int| step_accepted(runners, steps[i]))
}

/// The position of the first runner with id `id`.
pub fn find_runner(runners: &Vec<Runner>, id: &String) -> (r: Option<usize>)
    ensures
        r matches Some(i) ==> is_first_runner(runners@, id@, i as int),
        r is None ==> forall|j: int| 0 <= j < runners@.len() ==> runners@[j].id@ != id@,
{
    let mut j: usize = 0;
    while j < runners.len()
        invariant
            j <= runners@.len(),
            forall|k: int| 0 <= k < j ==> runners@[k].id@ != id@,
        decreases runners@.len() - j,
    {
        if runners[j].id == *id {
            return Some(j);
        }
        j = j + 1;
    }
    None
}

/// How many of the first `n` steps carry the id `id`.
pub open spec fn count_id(steps: Seq<Step>, id: Seq<char>, n: int) -> nat
    decreases n,
{
    if n <= 0 {
        0
    } else {
        count_id(steps, id, n - 1) + if steps[n - 1].id@ == id {
            1nat
        } else {
            0nat
        }
    }
}

/// The id of step `i` once numbered: its id, `_`, and how often that id has
/// occurred up to and including step `i`.
pub open spec fn numbered_id(steps: Seq<Step>, i: int) -> Seq<char> {
    steps[i].id@ + seq!['_'] + decimal(count_id(steps, steps[i].id@, i + 1))
}

proof fn lemma_count_bounded(steps: Seq<Step>, id: Seq<char>, n: int)
    requires
        0 <= n <= steps.len(),
    ensures
        count_id(steps, id, n) <= n,
    decreases n,
{
    if n > 0 {
        lemma_count_bounded(steps, id, n - 1);
    }
}

/// Suffixes each step id with its occurrence number, so that a step file used
/// twice yields `a_1` and `a_2`.
pub fn number_steps(steps: Vec<Step>) -> (r: Vec<Step>)
    ensures
        r@.len() == steps@.len(),
        forall|i: int|
            0 <= i < steps@.len() ==> (#[trigger] r@[i]).id@ == numbered_id(steps@, i)
                && r@[i].runner_id == steps@[i].runner_id && r@[i].config == steps@[i].config
                && r@[i].build == steps@[i].build && r@[i].args == steps@[i].args
                && r@[i].location == steps@[i].location,
{
    let ghost all = steps@;
    let n = steps.len();
    let mut ids: Vec<String> = Vec::new();
    let mut k: usize = 0;
    while k < n
        invariant
            k <= n,
            n == all.len(),
            steps@ == all,
            ids@.len() == k,
            forall|j: int| 0 <= j < k ==> (#[trigger] ids@[j])@ == all[j].id@,
        decreases n - k,
    {
        ids.push(steps[k].id.clone());
        k = k + 1;
    }
    let mut rest = steps;
    let mut r: Vec<Step> = Vec::new();
    let mut i: usize = 0;
    while i < n
        invariant
            i <= n,
            n == all.len(),
            ids@.len() == n,
            forall|j: int| 0 <= j < n ==> (#[trigger] ids@[j])@ == all[j].id@,
            rest@ == all.subrange(i as int, n as int),
            r@.len() == i,
            forall|j: int|
                0 <= j < i ==> (#[trigger] r@[j]).id@ == numbered_id(all, j) && r@[j].runner_id
                    == all[j].runner_id && r@[j].config == all[j].config && r@[j].build
                    == all[j].build && r@[j].args == all[j].args && r@[j].location
                    == all[j].location,
        decreases n - i,
    {
        let mut step = rest.remove(0);
        assert(step == all[i as int]);
        let mut count: usize = 0;
        let mut j: usize = 0;
        while j <= i
            invariant
                j <= i + 1,
                i < n,
                n == all.len(),
                ids@.len() == n,
                forall|m: int| 0 <= m < n ==> (#[trigger] ids@[m])@ == all[m].id@,
                step == all[i as int],
                count == count_id(all, all[i as int].id@, j as int),
            decreases i + 1 - j,
        {
            proof {
                lemma_count_bounded(all, all[i as int].id@, j as int);
            }
            if ids[j] == step.id {
                count = count + 1;
            }
            j = j + 1;
        }
        let mut id = step.id.clone();
        id.append("_");
        let digits = decimal_string(count);
        id.append(digits.as_str());
        proof {
            reveal_strlit("_");
        }
        assert(id@ =~= numbered_id(all, i as int));
        step.id = id;
        r.push(step);
        i = i + 1;
    }
    r
}

/// Whether the catalogue has a runner with id `id`.
pub open spec fn runner_found(runners: Seq<Runner>, id: Seq<char>) -> bool {
    exists|j: int| 0 <= j < runners.len() && runners[j].id@ == id
}

/// For each step, whether it is admitted: its runner exists and its
/// configuration was accepted.
pub open spec fn admissible(steps: Seq<Step>, runners: Seq<Runner>, accepted: Seq<bool>) -> Seq<
    bool,
> {
    Seq::new(steps.len(), |i: int| runner_found(runners, steps[i].runner_id@) && accepted[i])
}

/// `r` is the admitted steps, in order, numbered as by `number_steps`.
pub open spec fn admitted_as(
    r: Seq<Step>,
    steps: Seq<Step>,
    runners: Seq<Runner>,
    accepted: Seq<bool>,
) -> bool {
    let kept = kept_by(steps, admissible(steps, runners, accepted), steps.len() as int);
    &&& r.len() == kept.len()
    &&& forall|i: int|
        0 <= i < kept.len() ==> (#[trigger] r[i]).id@ == numbered_id(kept, i) && r[i].runner_id
            == kept[i].runner_id && r[i].config == kept[i].config && r[i].build == kept[i].build
            && r[i].args == kept[i].args && r[i].location == kept[i].location
}

/// The steps whose runner is in the catalogue and whose verdict in `accepted`
/// is `true`, in order, numbered as by `number_steps`.
pub fn select_steps(steps: Vec<Step>, runners: &Vec<Runner>, accepted: &Vec<bool>) -> (r: Vec<Step>)
    requires
        accepted@.len() == steps@.len(),
    ensures
        admitted_as(r@, steps@, runners@, accepted@),
{
    let ghost all = steps@;
    let ghost adm = admissible(all, runners@, accepted@);
    let n = steps.len();
    let mut rest = steps;
    let mut kept: Vec<Step> = Vec::new();
    let mut i: usize = 0;
    while i < n
        invariant
            i <= n,
            n == all.len(),
            accepted@.len() == n,
            adm == admissible(all, runners@, accepted@),
            rest@ == all.subrange(i as int, n as int),
            kept@ == kept_by(all, adm, i as int),
        decreases n - i,
    {
        let step = rest.remove(0);
        assert(step == all[i as int]);
        let found = match find_runner(runners, &step.runner_id) {
            Some(_) => true,
            None => false,
        };
        assert(found == runner_found(runners@, step.runner_id@));
        if found && accepted[i] {
            kept.push(step);
        }
        i = i + 1;
    }
    number_steps(kept)
}

/// Whether each step's runner exists and accepts the step's configuration.
pub fn step_verdicts(steps: &Vec<Step>, runners: &Vec<Runner>) -> (r: Vec<bool>)
    ensures
        r@ == step_verdicts_of(steps@, runners@),
{
    let mut r: Vec<bool> = Vec::new();
    let mut i: usize = 0;
    while i < steps.len()
        invariant
            i <= steps@.len(),
            r@ == step_verdicts_of(steps@, runners@).take(i as int),
        decreases steps@.len() - i,
    {
        let ok = match find_runner(runners, &steps[i].runner_id) {
            Some(ri) => {
                let v = config_is_valid(&runners[ri].schema, &steps[i].config);
                proof {
                    let s = steps@[i as int];
                    if step_accepted(runners@, s) {
                        let j = choose|j: int|
                            is_first_runner(runners@, s.runner_id@, j) && schema_verdict(
                                runners@[j].schema,
                                s.config,
                            );
                        assert(j == ri) by {
                            if j < ri {
                                assert(runners@[j].id@ != s.runner_id@);
                            } else if j > ri {
                                assert(runners@[ri as int].id@ != s.runner_id@);
                            }
                        }
                    }
                    if v {
                        assert(is_first_runner(runners@, s.runner_id@, ri as int));
                    }
                }
                v
            },
            None => false,
        };
        r.push(ok);
        i = i + 1;
        assert(r@ =~= step_verdicts_of(steps@, runners@).take(i as int));
    }
    assert(step_verdicts_of(steps@, runners@).take(i as int) =~= step_verdicts_of(steps@, runners@));
    r
}

/// The steps that name a runner of the catalogue and whose configuration the
/// first such runner's schema accepts, in order, numbered as by `number_steps`.
pub fn admit_steps(steps: Vec<Step>, runners: &Vec<Runner>) -> (r: Vec<Step>)
    ensures
        admitted_as(r@, steps@, runners@, step_verdicts_of(steps@, runners@)),
{
    let accepted = step_verdicts(&steps, runners);
    select_steps(steps, runners, &accepted)
}

} // verus!
