pub mod docker;
pub mod generate;
pub mod prepare;
pub mod run;
pub mod state;
pub mod stop;
pub mod user;
pub mod validate;

use vstd::prelude::*;
use vstd::string::*;

use crate::channel::Channel;
use crate::commands::user::{contains_str, listed};
use crate::json::{home_dir, json_path, json_path_found, texts, texts_of, type_query, views};
use crate::runner::Runner;
use crate::step::RunThing;
use crate::text::{expand_tilde_with, opt_view, tilde_expanded};

verus! {

/// The subcommands of the orchestrator.
pub enum Command {
    Generate(generate::Command),
    Run(run::Command),
    Docker(docker::Command),
    Prepare(prepare::Command),
    Validate(validate::Command),
    Stop(stop::Command),
}

/// Which streams of a child are also collected into a string.
#[derive(Clone, Copy, Debug, PartialEq, Eq, Structural)]
pub struct OutputConfig {
    pub stdout: bool,
    pub stderr: bool,
}

impl OutputConfig {
    /// Both streams collected, as for a sub-step whose output feeds another.
    pub fn captured() -> (r: OutputConfig)
        ensures
            r.stdout && r.stderr,
    {
        OutputConfig { stdout: true, stderr: true }
    }
}

impl Default for OutputConfig {
    fn default() -> (r: OutputConfig)
        ensures
            !r.stdout && !r.stderr,
    {
        OutputConfig { stdout: false, stderr: false }
    }
}

/// One shell script to spawn: `sh -c script` in `location`, labelled `name`.
pub struct Launch {
    pub name: String,
    pub script: String,
    pub location: Option<String>,
}

/// The launches that `f` gives for each item, in order.
pub open spec fn concat_map<T>(items: Seq<T>, f: spec_fn(T) -> Seq<Launch>) -> Seq<Launch>
    decreases items.len(),
{
    if items.len() == 0 {
        Seq::empty()
    } else {
        concat_map(items.drop_last(), f) + f(items.last())
    }
}

/// A launch of `script`, if there is one.
pub open spec fn launch_of(name: String, script: Option<String>, location: Option<String>) -> Seq<
    Launch,
> {
    match script {
        Some(s) => seq![Launch { name, script: s, location }],
        None => Seq::empty(),
    }
}

pub fn make_launch(name: &String, script: &Option<String>, location: &Option<String>) -> (r: Option<
    Launch,
>)
    ensures
        r matches Some(l) ==> launch_of(*name, *script, *location) == seq![l],
        r is None ==> launch_of(*name, *script, *location) == Seq::<Launch>::empty(),
{
    match script {
        Some(s) => Some(
            Launch {
                name: name.clone(),
                script: s.clone(),
                location: crate::step::copy_opt_string(location),
            },
        ),
        None => None,
    }
}

/// The script of kind `which` of a channel: 0 start, 1 stop, otherwise docker.
pub open spec fn channel_script(c: Channel, which: u8) -> Option<String> {
    if which == 0 {
        c.start
    } else if which == 1 {
        c.stop
    } else {
        c.docker
    }
}

/// The launch of a channel's script of kind `which`.
pub open spec fn channel_launch(which: u8) -> spec_fn(Channel) -> Seq<Launch> {
    |c: Channel| launch_of(c.id, channel_script(c, which), c.location)
}

/// The launch of a runner's start or stop script.
pub open spec fn runner_launch(start: bool) -> spec_fn(Runner) -> Seq<Launch> {
    |x: Runner|
        launch_of(
            x.id,
            if start {
                x.start
            } else {
                x.stop
            },
            x.location,
        )
}

/// The channels whose id the pipeline document mentions as a `type`, in
/// catalogue order.
pub open spec fn used_channels(channels: Seq<Channel>, types: Seq<String>) -> Seq<Channel> {
    channels.filter(|c: Channel| listed(types, c.id@))
}

/// Whether some step of the document runs on runner `id`.
pub open spec fn runner_used(steps: Seq<RunThing>, id: Seq<char>) -> bool {
    exists|k: int| 0 <= k < steps.len() && steps[k].processor_config.runner_id@ == id
}

/// The runners that some step of the document runs on, in catalogue order.
pub open spec fn used_runners(runners: Seq<Runner>, steps: Seq<RunThing>) -> Seq<Runner> {
    runners.filter(|r: Runner| runner_used(steps, r.id@))
}

pub fn is_runner_used(steps: &Vec<RunThing>, id: &String) -> (r: bool)
    ensures
        r == runner_used(steps@, id@),
{
    let mut k: usize = 0;
    while k < steps.len()
        invariant
            k <= steps@.len(),
            forall|j: int| 0 <= j < k ==> steps@[j].processor_config.runner_id@ != id@,
        decreases steps@.len() - k,
    {
        if steps[k].processor_config.runner_id == *id {
            return true;
        }
        k = k + 1;
    }
    false
}

/// The launches of one script kind of each channel that the document uses.
pub fn channel_launches(channels: &Vec<Channel>, types: &Vec<String>, which: u8) -> (r: Vec<
    Launch,
>)
    ensures
        r@ == concat_map(used_channels(channels@, types@), channel_launch(which)),
{
    let mut r: Vec<Launch> = Vec::new();
    let mut i: usize = 0;
    while i < channels.len()
        invariant
            i <= channels@.len(),
            r@ == concat_map(used_channels(channels@.take(i as int), types@), channel_launch(which)),
        decreases channels@.len() - i,
    {
        let ghost pick = channel_launch(which);
        let c = &channels[i];
        let ghost before = used_channels(channels@.take(i as int), types@);
        proof {
            reveal(Seq::filter);
            assert(channels@.take(i + 1).drop_last() =~= channels@.take(i as int));
            assert(channels@.take(i + 1).last() == *c);
        }
        if contains_str(types, &c.id) {
            let script = if which == 0 {
                &c.start
            } else if which == 1 {
                &c.stop
            } else {
                &c.docker
            };
            assert(used_channels(channels@.take(i + 1), types@) == before.push(*c));
            assert(before.push(*c).drop_last() =~= before);
            match make_launch(&c.id, script, &c.location) {
                Some(l) => {
                    r.push(l);
                    assert(r@ =~= concat_map(before, pick) + pick(*c));
                },
                None => {
                    assert(r@ =~= concat_map(before, pick) + pick(*c));
                },
            }
        }
        i = i + 1;
    }
    assert(channels@.take(i as int) =~= channels@);
    r
}

/// The launches of one script kind of each runner that the document uses.
pub fn runner_launches(runners: &Vec<Runner>, steps: &Vec<RunThing>, start: bool) -> (r: Vec<
    Launch,
>)
    ensures
        r@ == concat_map(used_runners(runners@, steps@), runner_launch(start)),
{
    let mut r: Vec<Launch> = Vec::new();
    let mut i: usize = 0;
    while i < runners.len()
        invariant
            i <= runners@.len(),
            r@ == concat_map(used_runners(runners@.take(i as int), steps@), runner_launch(start)),
        decreases runners@.len() - i,
    {
        let ghost pick = runner_launch(start);
        let x = &runners[i];
        let ghost before = used_runners(runners@.take(i as int), steps@);
        proof {
            reveal(Seq::filter);
            assert(runners@.take(i + 1).drop_last() =~= runners@.take(i as int));
            assert(runners@.take(i + 1).last() == *x);
        }
        if is_runner_used(steps, &x.id) {
            let script = if start {
                &x.start
            } else {
                &x.stop
            };
            assert(used_runners(runners@.take(i + 1), steps@) == before.push(*x));
            assert(before.push(*x).drop_last() =~= before);
            match make_launch(&x.id, script, &x.location) {
                Some(l) => {
                    r.push(l);
                    assert(r@ =~= concat_map(before, pick) + pick(*x));
                },
                None => {
                    assert(r@ =~= concat_map(before, pick) + pick(*x));
                },
            }
        }
        i = i + 1;
    }
    assert(runners@.take(i as int) =~= runners@);
    r
}

/// The string values that the JSONPath query `$..type` finds in the document,
/// in the order found; none if the query finds nothing.
pub fn referenced_types(doc: &serde_json::Value) -> (r: Vec<String>)
    ensures
        views(r@) == match json_path_found(*doc, type_query()) {
            Some(found) => texts_of(found, found.len() as int),
            None => Seq::empty(),
        },
{
    proof {
        reveal_strlit("$..type");
    }
    assert("$..type"@ =~= type_query());
    match json_path(doc, "$..type") {
        None => {
            let r: Vec<String> = Vec::new();
            assert(views(r@) =~= Seq::<Seq<char>>::empty());
            r
        },
        Some(found) => texts(&found),
    }
}

/// `path` with a leading `~` component replaced by the current user's home
/// directory.
pub fn expand_tilde(path: &str) -> (r: Option<String>)
    ensures
        !crate::text::starts_with_tilde(path@) ==> (r matches Some(x) && x@ == path@),
        exists|home: Option<Seq<char>>| opt_view(r) == tilde_expanded(path@, home),
{
    let n = path.unicode_len();
    let tilde = n >= 1 && path.get_char(0) == '~' && (n == 1 || path.get_char(1) == '/');
    let home = if tilde {
        home_dir()
    } else {
        None
    };
    let ghost h = opt_view(home);
    let r = expand_tilde_with(path, home);
    assert(opt_view(r) == tilde_expanded(path@, h));
    r
}

} // verus!
