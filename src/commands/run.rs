use vstd::prelude::*;

use crate::assoc::{bind, find_key, keys_unique, lemma_lookup_at, lookup};
use crate::commands::user::{contains_str, listed};
use crate::step::{copy_argument, same_argument, Output, RunThing, StepArgument};
use crate::text::{join_path, joined, quote, quoted, replace_all, replaced};

verus! {

/// A pipeline document: the top-level steps and the parameter names.
pub struct Steps {
    pub steps: Vec<RunThing>,
    pub params: Vec<String>,
}

/// Options of the command that runs a pipeline.
pub struct Command {
    pub file: String,
    pub tmp_dir: Option<String>,
}

pub open spec fn config_token() -> Seq<char> {
    seq!['{', 'c', 'o', 'n', 'f', 'i', 'g', '}']
}

pub open spec fn cwd_token() -> Seq<char> {
    seq!['{', 'c', 'w', 'd', '}']
}

/// A runner template with `{config}` and then `{cwd}` replaced by the quoted
/// paths.
pub open spec fn command_line(template: Seq<char>, config: Seq<char>, cwd: Seq<char>) -> Seq<char> {
    replaced(replaced(template, config_token(), quoted(config)), cwd_token(), quoted(cwd))
}

/// The shell command for a step: its runner's template with the placeholders
/// substituted by the quoted paths of its configuration file and of the
/// launch directory.
pub fn runner_command(template: &str, config_path: &str, cwd: &str) -> (r: String)
    ensures
        r@ == command_line(template@, config_path@, cwd@),
{
    proof {
        reveal_strlit("{config}");
        reveal_strlit("{cwd}");
    }
    assert("{config}"@ =~= config_token());
    assert("{cwd}"@ =~= cwd_token());
    let c = quote(config_path);
    let d = quote(cwd);
    let first = replace_all(template, "{config}", c.as_str());
    replace_all(first.as_str(), "{cwd}", d.as_str())
}

/// The suffix of a file that holds a captured stream.
pub open spec fn stream_suffix(o: Output) -> Seq<char> {
    match o {
        Output::Stdout => seq!['.', 's', 't', 'd', 'o', 'u', 't'],
        Output::Stderr => seq!['.', 's', 't', 'd', 'e', 'r', 'r'],
    }
}

pub open spec fn json_suffix() -> Seq<char> {
    seq!['.', 'j', 's', 'o', 'n']
}

/// The file `<dir>/<name><suffix>`.
pub fn file_in(dir: &str, name: &str, suffix: &str) -> (r: String)
    ensures
        r@ == joined(dir@, name@ + suffix@),
{
    let mut f = String::from_str(name);
    f.append(suffix);
    join_path(dir, f.as_str())
}

/// The state of one run: where files go, and the argument that each captured
/// sub-step resolved to.
pub struct RunHandler {
    pub tmp_dir: String,
    pub sub_argument_outputs: Vec<(String, StepArgument)>,
    /// The sub-steps being resolved, innermost last.
    pub resolving: Vec<String>,
}

impl RunHandler {
    pub open spec fn wf(self) -> bool {
        keys_unique(self.sub_argument_outputs@)
    }

    pub fn new(tmp_dir: String) -> (r: RunHandler)
        ensures
            r.wf(),
            r.tmp_dir == tmp_dir,
            r.sub_argument_outputs@.len() == 0,
            r.resolving@.len() == 0,
    {
        RunHandler { tmp_dir, sub_argument_outputs: Vec::new(), resolving: Vec::new() }
    }

    /// Starts resolving sub-step `id`; `false`, and nothing recorded, when `id`
    /// is already being resolved, that is when the references form a cycle.
    pub fn enter(&mut self, id: &String) -> (r: bool)
        ensures
            r == !listed(old(self).resolving@, id@),
            r ==> final(self).resolving@ == old(self).resolving@.push(*id),
            !r ==> final(self).resolving@ == old(self).resolving@,
            final(self).tmp_dir == old(self).tmp_dir,
            final(self).sub_argument_outputs == old(self).sub_argument_outputs,
    {
        if contains_str(&self.resolving, id) {
            false
        } else {
            self.resolving.push(id.clone());
            true
        }
    }

    /// Ends the innermost resolution.
    pub fn leave(&mut self)
        ensures
            final(self).resolving@ == if old(self).resolving@.len() > 0 {
                old(self).resolving@.drop_last()
            } else {
                old(self).resolving@
            },
            final(self).tmp_dir == old(self).tmp_dir,
            final(self).sub_argument_outputs == old(self).sub_argument_outputs,
    {
        let ghost before = self.resolving@;
        let _ = self.resolving.pop();
        proof {
            if before.len() > 0 {
                assert(self.resolving@ =~= before.drop_last());
            }
        }
    }

    /// The configuration file of step `id`: `<tmp_dir>/<id>.json`.
    pub fn get_tmp_file(&self, id: &str) -> (r: String)
        ensures
            r@ == joined(self.tmp_dir@, id@ + json_suffix()),
    {
        proof {
            reveal_strlit(".json");
        }
        assert(".json"@ =~= json_suffix());
        file_in(self.tmp_dir.as_str(), id, ".json")
    }

    /// The file that holds the captured stream `output` of step `id`:
    /// `<tmp_dir>/<id>.stdout` or `<tmp_dir>/<id>.stderr`.
    pub fn captured_file(&self, id: &str, output: Output) -> (r: String)
        ensures
            r@ == joined(self.tmp_dir@, id@ + stream_suffix(output)),
    {
        proof {
            reveal_strlit(".stdout");
            reveal_strlit(".stderr");
        }
        match output {
            Output::Stdout => {
                assert(".stdout"@ =~= stream_suffix(output));
                file_in(self.tmp_dir.as_str(), id, ".stdout")
            },
            Output::Stderr => {
                assert(".stderr"@ =~= stream_suffix(output));
                file_in(self.tmp_dir.as_str(), id, ".stderr")
            },
        }
    }

    /// The file argument that replaces a captured sub-step.
    pub fn captured_argument(&self, id: &str, output: Output, serialization: String) -> (r:
        StepArgument)
        ensures
            r matches StepArgument::File { path, serialization: s } && path@ == joined(
                self.tmp_dir@,
                id@ + stream_suffix(output),
            ) && s == serialization,
    {
        StepArgument::File { path: self.captured_file(id, output), serialization }
    }

    /// The resolved argument of sub-step `id`, if it already ran.
    pub fn memoised(&self, id: &String) -> (r: Option<StepArgument>)
        requires
            self.wf(),
        ensures
            copied(lookup(self.sub_argument_outputs@, id@), r),
    {
        match find_key(&self.sub_argument_outputs, id) {
            Some(i) => {
                proof {
                    lemma_lookup_at(self.sub_argument_outputs@, id@, i as int);
                }
                Some(copy_argument(&self.sub_argument_outputs[i].1))
            },
            None => None,
        }
    }

    /// Records what sub-step `id` resolved to, so that it runs at most once.
    pub fn remember(&mut self, id: String, value: StepArgument)
        requires
            old(self).wf(),
        ensures
            final(self).wf(),
            final(self).tmp_dir == old(self).tmp_dir,
            final(self).resolving == old(self).resolving,
            lookup(final(self).sub_argument_outputs@, id@) == Some(value),
            forall|k: Seq<char>|
                k != id@ ==> lookup(final(self).sub_argument_outputs@, k) == lookup(
                    old(self).sub_argument_outputs@,
                    k,
                ),
    {
        bind(&mut self.sub_argument_outputs, id, value);
    }

    /// Decides what to do with sub-step `id` when an argument refers to it:
    /// reuse what it resolved to, report a cycle, or run it, which starts its
    /// resolution.
    pub fn begin_sub_step(&mut self, id: &String) -> (r: SubStepAction)
        requires
            old(self).wf(),
        ensures
            final(self).wf(),
            final(self).tmp_dir == old(self).tmp_dir,
            final(self).sub_argument_outputs == old(self).sub_argument_outputs,
            match lookup(old(self).sub_argument_outputs@, id@) {
                Some(a) => reuses(r, a) && final(self).resolving == old(self).resolving,
                None => if listed(old(self).resolving@, id@) {
                    r == SubStepAction::Cycle && final(self).resolving@ == old(self).resolving@
                } else {
                    r == SubStepAction::Run && final(self).resolving@ == old(
                        self,
                    ).resolving@.push(*id)
                },
            },
    {
        match self.memoised(id) {
            Some(a) => SubStepAction::Reuse(a),
            None => {
                if self.enter(id) {
                    SubStepAction::Run
                } else {
                    SubStepAction::Cycle
                }
            },
        }
    }

    /// Ends the resolution of sub-step `id`, whose `output` was captured: the
    /// file argument that replaces it, remembered for later references.
    pub fn finish_sub_step(&mut self, id: String, output: Output, serialization: String) -> (r:
        StepArgument)
        requires
            old(self).wf(),
        ensures
            final(self).wf(),
            final(self).tmp_dir == old(self).tmp_dir,
            final(self).resolving@ == if old(self).resolving@.len() > 0 {
                old(self).resolving@.drop_last()
            } else {
                old(self).resolving@
            },
            r == (StepArgument::File { path: r->File_path, serialization }),
            r->File_path@ == joined(old(self).tmp_dir@, id@ + stream_suffix(output)),
            lookup(final(self).sub_argument_outputs@, id@) == Some(r),
    {
        self.leave();
        let path = self.captured_file(id.as_str(), output);
        self.remember(id, StepArgument::File { path: path.clone(), serialization: serialization.clone() });
        StepArgument::File { path, serialization }
    }
}

/// What to do with a sub-step that an argument refers to.
pub enum SubStepAction {
    /// It already ran: use this argument.
    Reuse(StepArgument),
    /// It is being resolved already: the references form a cycle.
    Cycle,
    /// Run it and capture its output.
    Run,
}

/// Whether `r` reuses a deep copy of `a`.
pub open spec fn reuses(r: SubStepAction, a: StepArgument) -> bool {
    match r {
        SubStepAction::Reuse(b) => same_argument(a, b),
        _ => false,
    }
}

/// Whether `r` is a deep copy of what `o` holds.
pub open spec fn copied(o: Option<StepArgument>, r: Option<StepArgument>) -> bool {
    match (o, r) {
        (Some(a), Some(b)) => same_argument(a, b),
        (None, None) => true,
        _ => false,
    }
}

} // verus!
