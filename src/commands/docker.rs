use vstd::prelude::*;

use crate::channel::Channel;
use crate::commands::run::runner_command;
use crate::commands::user::{contains_str, listed};
use crate::commands::{channel_launch, channel_launches, concat_map, runner_used, used_channels, Launch};
use crate::runner::Runner;
use crate::step::RunThing;

verus! {

/// Options of the command that exports a container-compose document.
pub struct Command {
    pub file: String,
    /// Write `docker-compose.yml` rather than printing.
    pub output: bool,
    pub tmp_dir: Option<String>,
}

/// Whether the runner has a non-empty docker script.
pub open spec fn docker_ready(r: Runner) -> bool {
    match r.docker {
        Some(d) => d@.len() > 0,
        None => false,
    }
}

/// Whether the catalogue has a runner `id` with a non-empty docker script.
pub open spec fn has_docker(runners: Seq<Runner>, id: Seq<char>) -> bool {
    exists|j: int|
        0 <= j < runners.len() && runners[j].id@ == id && docker_ready(runners[j])
}

/// Whether one of the first `k` steps runs on runner `id`.
pub open spec fn used_before(steps: Seq<RunThing>, k: int, id: Seq<char>) -> bool {
    exists|m: int| 0 <= m < k && steps[m].processor_config.runner_id@ == id
}

pub fn can_docker(runners: &Vec<Runner>, id: &String) -> (r: bool)
    ensures
        r == has_docker(runners@, id@),
{
    let mut j: usize = 0;
    while j < runners.len()
        invariant
            j <= runners@.len(),
            forall|k: int|
                0 <= k < j ==> !(runners@[k].id@ == id@ && docker_ready(runners@[k])),
        decreases runners@.len() - j,
    {
        if runners[j].id == *id {
            match &runners[j].docker {
                Some(d) => {
                    if d.as_str().unicode_len() > 0 {
                        return true;
                    }
                },
                None => {},
            }
        }
        j = j + 1;
    }
    false
}

impl Command {
    /// The ids, each once, of the runners that steps use and that have no
    /// non-empty docker script; the export goes ahead only when there is none.
    pub fn runners_without_docker(&self, steps: &Vec<RunThing>, runners: &Vec<Runner>) -> (r: Vec<
        String,
    >)
        ensures
            forall|id: Seq<char>|
                listed(r@, id) <==> (runner_used(steps@, id) && !has_docker(runners@, id)),
            forall|i: int, j: int| 0 <= i < j < r@.len() ==> r@[i]@ != r@[j]@,
    {
        let mut r: Vec<String> = Vec::new();
        let mut k: usize = 0;
        while k < steps.len()
            invariant
                k <= steps@.len(),
                forall|id: Seq<char>|
                    listed(r@, id) <==> (used_before(steps@, k as int, id) && !has_docker(
                        runners@,
                        id,
                    )),
                forall|i: int, j: int| 0 <= i < j < r@.len() ==> r@[i]@ != r@[j]@,
            decreases steps@.len() - k,
        {
            let id = &steps[k].processor_config.runner_id;
            let ghost before = r@;
            if !can_docker(runners, id) && !contains_str(&r, id) {
                r.push(id.clone());
                proof {
                    assert(r@[before.len() as int]@ == id@);
                    assert forall|x: Seq<char>| listed(r@, x) <==> (listed(before, x) || x == id@) by {
                        if listed(r@, x) && x != id@ {
                            let j = choose|j: int| 0 <= j < r@.len() && r@[j]@ == x;
                            assert(before[j] == r@[j]);
                        }
                        if listed(before, x) {
                            let j = choose|j: int| 0 <= j < before.len() && before[j]@ == x;
                            assert(r@[j] == before[j]);
                        }
                    }
                }
            }
            proof {
                assert forall|x: Seq<char>|
                    #[trigger] used_before(steps@, k + 1, x) <==> (used_before(steps@, k as int, x)
                        || x == id@) by {
                    if x == id@ {
                        assert(steps@[k as int].processor_config.runner_id@ == x);
                    }
                }
                assert forall|x: Seq<char>|
                    listed(r@, x) <==> (used_before(steps@, k + 1, x) && !has_docker(
                        runners@,
                        x,
                    )) by {
                    assert(used_before(steps@, k + 1, x) <==> (used_before(steps@, k as int, x)
                        || x == id@));
                    if x != id@ {
                        if listed(r@, x) && r@.len() > before.len() {
                            let j = choose|j: int| 0 <= j < r@.len() && r@[j]@ == x;
                            assert(before[j] == r@[j]);
                        }
                        if listed(before, x) {
                            let j = choose|j: int| 0 <= j < before.len() && before[j]@ == x;
                            assert(r@[j] == before[j]);
                        }
                    }
                }
            }
            k = k + 1;
        }
        proof {
            assert forall|x: Seq<char>| #[trigger] runner_used(steps@, x) <==> used_before(
                steps@,
                k as int,
                x,
            ) by {}
        }
        r
    }

    /// The compose services of the used channels that have a docker script, in
    /// catalogue order.
    pub fn channel_services(&self, channels: &Vec<Channel>, types: &Vec<String>) -> (r: Vec<
        Launch,
    >)
        ensures
            r@ == concat_map(used_channels(channels@, types@), channel_launch(2)),
    {
        channel_launches(channels, types, 2)
    }

    /// The service script of a step: the runner's docker template with the
    /// placeholders substituted.
    pub fn step_script(&self, runner: &Runner, config_path: &str, cwd: &str) -> (r: Option<
        String,
    >)
        ensures
            r is Some <==> runner.docker is Some,
            r matches Some(x) ==> x@ == crate::commands::run::command_line(
                runner.docker->Some_0@,
                config_path@,
                cwd@,
            ),
    {
        match &runner.docker {
            Some(template) => Some(runner_command(template.as_str(), config_path, cwd)),
            None => None,
        }
    }
}

/// The list that `runners_without_docker` returns is empty exactly when every
/// step's runner has a non-empty docker script, that is when the export may go
/// ahead.
pub proof fn lemma_export_needs_docker(steps: Seq<RunThing>, runners: Seq<Runner>, missing: Seq<String>)
    requires
        forall|id: Seq<char>|
            listed(missing, id) <==> (runner_used(steps, id) && !has_docker(runners, id)),
    ensures
        missing.len() == 0 <==> forall|k: int|
            0 <= k < steps.len() ==> has_docker(runners, #[trigger] steps[k].processor_config.runner_id@),
{
    if missing.len() > 0 {
        assert(listed(missing, missing[0]@));
    } else {
        assert forall|k: int| 0 <= k < steps.len() implies has_docker(
            runners,
            #[trigger] steps[k].processor_config.runner_id@,
        ) by {
            let id = steps[k].processor_config.runner_id@;
            assert(runner_used(steps, id));
            assert(!listed(missing, id));
        }
    }
}

} // verus!
