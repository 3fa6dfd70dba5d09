use vstd::prelude::*;
use vstd::string::*;

use crate::channel::Channel;

verus! {

/// A recipe for launching one kind of step.
pub struct Runner {
    pub id: String,
    pub start: Option<String>,
    pub docker: Option<String>,
    pub stop: Option<String>,
    /// Shell template holding the `{config}` and `{cwd}` placeholders.
    pub script: String,
    pub can_use_channel: Vec<String>,
    pub required_fields: Vec<String>,
    pub can_use_serialization: Vec<String>,
    pub schema: jsonschema::JSONSchema,
    pub location: Option<String>,
}

/// Whether the catalogue declares a channel with this id.
pub open spec fn channel_declared(channels: Seq<Channel>, id: Seq<char>) -> bool {
    exists|j: int| 0 <= j < channels.len() && channels[j].id@ == id
}

/// Whether every channel that the runner names is declared.
pub open spec fn channels_known(runner: Runner, channels: Seq<Channel>) -> bool {
    forall|i: int|
        0 <= i < runner.can_use_channel@.len() ==> channel_declared(
            channels,
            #[trigger] runner.can_use_channel@[i]@,
        )
}

pub fn has_channel(channels: &Vec<Channel>, id: &String) -> (r: bool)
    ensures
        r == channel_declared(channels@, id@),
{
    let mut j: usize = 0;
    while j < channels.len()
        invariant
            j <= channels@.len(),
            forall|k: int| 0 <= k < j ==> channels@[k].id@ != id@,
        decreases channels@.len() - j,
    {
        if channels[j].id == *id {
            return true;
        }
        j = j + 1;
    }
    false
}

impl Runner {
    /// Whether every channel this runner can use is in the catalogue.
    pub fn uses_known_channels(&self, channels: &Vec<Channel>) -> (r: bool)
        ensures
            r == channels_known(*self, channels@),
    {
        let mut i: usize = 0;
        while i < self.can_use_channel.len()
            invariant
                i <= self.can_use_channel@.len(),
                forall|k: int|
                    0 <= k < i ==> channel_declared(channels@, #[trigger] self.can_use_channel@[k]@),
            decreases self.can_use_channel@.len() - i,
        {
            if !has_channel(channels, &self.can_use_channel[i]) {
                return false;
            }
            i = i + 1;
        }
        true
    }
}

/// Whether a runner can be kept: it has a script and all its channels are
/// declared.
pub open spec fn runner_usable(r: Runner, channels: Seq<Channel>) -> bool {
    r.script@.len() > 0 && channels_known(r, channels)
}

/// The usable runners, in catalogue order.
pub open spec fn known_runners(runners: Seq<Runner>, channels: Seq<Channel>) -> Seq<Runner> {
    runners.filter(|r: Runner| runner_usable(r, channels))
}

/// Drops each runner that has an empty script or names a channel the
/// catalogue lacks.
pub fn retain_known_runners(runners: Vec<Runner>, channels: &Vec<Channel>) -> (r: Vec<Runner>)
    ensures
        r@ == known_runners(runners@, channels@),
{
    let ghost all = runners@;
    let n = runners.len();
    let mut rest = runners;
    let mut r: Vec<Runner> = Vec::new();
    let mut i: usize = 0;
    while rest.len() > 0
        invariant
            i <= all.len(),
            rest@ == all.subrange(i as int, all.len() as int),
            i + rest@.len() == all.len(),
            all.len() == n,
            r@ == known_runners(all.take(i as int), channels@),
        decreases rest@.len(),
    {
        let runner = rest.remove(0);
        let keep = runner.script.as_str().unicode_len() > 0 && runner.uses_known_channels(channels);
        proof {
            reveal(Seq::filter);
            assert(all.take(i + 1).drop_last() =~= all.take(i as int));
            assert(all.take(i + 1).last() == runner);
        }
        if keep {
            r.push(runner);
        }
        i = i + 1;
    }
    assert(all.take(i as int) =~= all);
    r
}

} // verus!
