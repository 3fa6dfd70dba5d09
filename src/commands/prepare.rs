use vstd::prelude::*;

use crate::channel::Channel;
use crate::commands::{
    channel_launch, channel_launches, concat_map, launch_of, runner_launch, runner_launches, used_channels, used_runners, Launch,
};
use crate::runner::Runner;
use crate::step::RunThing;

verus! {

/// Options of the command that starts channels and runners and builds steps.
pub struct Command {
    pub file: String,
}

/// The build launch of a step, if it has a build script.
pub open spec fn build_of(s: RunThing) -> Seq<Launch> {
    launch_of(s.processor_config.id, s.processor_config.build, s.processor_config.location)
}

/// The order of preparation: start scripts of the used channels, then of the
/// used runners, both in catalogue order, then the build scripts of the steps
/// in document order.
pub open spec fn prepare_order(
    channels: Seq<Channel>,
    runners: Seq<Runner>,
    steps: Seq<RunThing>,
    types: Seq<String>,
) -> Seq<Launch> {
    concat_map(used_channels(channels, types), channel_launch(0))
        + concat_map(used_runners(runners, steps), runner_launch(true))
        + concat_map(steps, |s: RunThing| build_of(s))
}

impl Command {
    /// What to spawn, in order, to prepare the pipeline whose steps are
    /// `steps` and whose document mentions the channel types `types`.
    pub fn plan(
        &self,
        channels: &Vec<Channel>,
        runners: &Vec<Runner>,
        steps: &Vec<RunThing>,
        types: &Vec<String>,
    ) -> (r: Vec<Launch>)
        ensures
            r@ == prepare_order(channels@, runners@, steps@, types@),
    {
        let mut r = channel_launches(channels, types, 0);
        let mut rs = runner_launches(runners, steps, true);
        r.append(&mut rs);
        let ghost front = r@;
        let mut i: usize = 0;
        while i < steps.len()
            invariant
                i <= steps@.len(),
                r@ == front + concat_map(steps@.take(i as int), |s: RunThing| build_of(s)),
            decreases steps@.len() - i,
        {
            let s = &steps[i].processor_config;
            proof {
                assert(steps@.take(i + 1).drop_last() =~= steps@.take(i as int));
                assert(steps@.take(i + 1).last() == steps@[i as int]);
            }
            match crate::commands::make_launch(&s.id, &s.build, &s.location) {
                Some(l) => {
                    r.push(l);
                },
                None => {},
            }
            assert(r@ =~= front + concat_map(steps@.take(i + 1), |s: RunThing| build_of(s)));
            i = i + 1;
        }
        assert(steps@.take(i as int) =~= steps@);
        r
    }
}

} // verus!
