use vstd::prelude::*;

use crate::channel::Channel;
use crate::commands::{
    channel_launch, channel_launches, concat_map, launch_of, runner_launch, runner_launches, used_channels, used_runners, Launch,
};
use crate::runner::Runner;
use crate::step::RunThing;

verus! {

/// Options of the command that stops runners and channels.
pub struct Command {
    pub file: String,
}

/// The order of stopping: the stop scripts of the used channels and then of
/// the used runners, as in preparation, taken in reverse.
pub open spec fn stop_order(
    channels: Seq<Channel>,
    runners: Seq<Runner>,
    steps: Seq<RunThing>,
    types: Seq<String>,
) -> Seq<Launch> {
    (concat_map(used_channels(channels, types), channel_launch(1))
        + concat_map(
        used_runners(runners, steps),
        runner_launch(false),
    )).reverse()
}

impl Command {
    /// What to spawn, one after the other, to stop the pipeline.
    pub fn plan(
        &self,
        channels: &Vec<Channel>,
        runners: &Vec<Runner>,
        steps: &Vec<RunThing>,
        types: &Vec<String>,
    ) -> (r: Vec<Launch>)
        ensures
            r@ == stop_order(channels@, runners@, steps@, types@),
    {
        let mut forward = channel_launches(channels, types, 1);
        let mut rs = runner_launches(runners, steps, false);
        forward.append(&mut rs);
        let ghost all = forward@;
        let mut r: Vec<Launch> = Vec::new();
        while forward.len() > 0
            invariant
                forward@ == all.take(forward@.len() as int),
                forward@.len() <= all.len(),
                r@ == all.subrange(forward@.len() as int, all.len() as int).reverse(),
            decreases forward@.len(),
        {
            let ghost k = forward@.len();
            let l = forward.pop().unwrap();
            r.push(l);
            assert(forward@ =~= all.take(forward@.len() as int));
            assert(r@ =~= all.subrange(forward@.len() as int, all.len() as int).reverse());
        }
        assert(all.subrange(0, all.len() as int) =~= all);
        r
    }
}

/// The names of a list of launches.
pub open spec fn launch_names(ls: Seq<Launch>) -> Seq<Seq<char>> {
    ls.map_values(|l: Launch| l.name@)
}

proof fn lemma_names_concat(a: Seq<Launch>, b: Seq<Launch>)
    ensures
        launch_names(a + b) == launch_names(a) + launch_names(b),
{
    assert(launch_names(a + b) =~= launch_names(a) + launch_names(b));
}

proof fn lemma_channel_names(items: Seq<Channel>)
    requires
        forall|i: int| 0 <= i < items.len() ==> (items[i].start is Some <==> items[i].stop is Some),
    ensures
        launch_names(concat_map(items, channel_launch(0))) == launch_names(
            concat_map(items, channel_launch(1)),
        ),
    decreases items.len(),
{
    if items.len() > 0 {
        let init = items.drop_last();
        lemma_channel_names(init);
        lemma_names_concat(concat_map(init, channel_launch(0)), channel_launch(0)(items.last()));
        lemma_names_concat(concat_map(init, channel_launch(1)), channel_launch(1)(items.last()));
        assert(items.last() == items[items.len() - 1]);
        assert(launch_names(channel_launch(0)(items.last())) =~= launch_names(
            channel_launch(1)(items.last()),
        ));
    }
}

proof fn lemma_runner_names(items: Seq<Runner>)
    requires
        forall|i: int| 0 <= i < items.len() ==> (items[i].start is Some <==> items[i].stop is Some),
    ensures
        launch_names(concat_map(items, runner_launch(true))) == launch_names(
            concat_map(items, runner_launch(false)),
        ),
    decreases items.len(),
{
    if items.len() > 0 {
        let init = items.drop_last();
        lemma_runner_names(init);
        lemma_names_concat(concat_map(init, runner_launch(true)), runner_launch(true)(items.last()));
        lemma_names_concat(concat_map(init, runner_launch(false)), runner_launch(false)(items.last()));
        assert(items.last() == items[items.len() - 1]);
        assert(launch_names(runner_launch(true)(items.last())) =~= launch_names(
            runner_launch(false)(items.last()),
        ));
    }
}

/// Stopping visits the used channels and runners in the reverse of the order
/// in which preparation starts them, where each has both a start and a stop
/// script or neither.
pub proof fn lemma_stop_reverses_prepare(
    channels: Seq<Channel>,
    runners: Seq<Runner>,
    steps: Seq<RunThing>,
    types: Seq<String>,
)
    requires
        forall|i: int|
            0 <= i < used_channels(channels, types).len() ==> ((#[trigger] used_channels(
                channels,
                types,
            )[i]).start is Some <==> used_channels(channels, types)[i].stop is Some),
        forall|i: int|
            0 <= i < used_runners(runners, steps).len() ==> ((#[trigger] used_runners(
                runners,
                steps,
            )[i]).start is Some <==> used_runners(runners, steps)[i].stop is Some),
    ensures
        launch_names(stop_order(channels, runners, steps, types)) == launch_names(
            concat_map(used_channels(channels, types), channel_launch(0)) + concat_map(
                used_runners(runners, steps),
                runner_launch(true),
            ),
        ).reverse(),
{
    let uc = used_channels(channels, types);
    let ur = used_runners(runners, steps);
    lemma_channel_names(uc);
    lemma_runner_names(ur);
    let started = concat_map(uc, channel_launch(0)) + concat_map(ur, runner_launch(true));
    let stopped = concat_map(uc, channel_launch(1)) + concat_map(ur, runner_launch(false));
    lemma_names_concat(concat_map(uc, channel_launch(0)), concat_map(ur, runner_launch(true)));
    lemma_names_concat(concat_map(uc, channel_launch(1)), concat_map(ur, runner_launch(false)));
    assert(launch_names(stopped.reverse()) =~= launch_names(stopped).reverse());
}

} // verus!
