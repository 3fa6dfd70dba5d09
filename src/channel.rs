use vstd::prelude::*;

use crate::json::{schema_accepts, schema_verdict};

verus! {

/// A declared transport kind with the concrete configurations it offers.
pub struct Channel {
    pub id: String,
    pub required_fields: Vec<String>,
    pub start: Option<String>,
    pub docker: Option<String>,
    pub stop: Option<String>,
    pub options: Vec<serde_json::Value>,
    /// Directory of the descriptor: the working directory of its scripts.
    pub location: Option<String>,
}

/// The configuration shared by the two ends of one link.
#[derive(Debug)]
pub struct ChannelConfig {
    pub ty: String,
    pub serialization: String,
    pub config: serde_json::Value,
}

impl ChannelConfig {
    pub fn new(ty: String, serialization: String, config: serde_json::Value) -> (r: Self)
        ensures
            r.ty == ty,
            r.serialization == serialization,
            r.config == config,
    {
        ChannelConfig { ty, serialization, config }
    }

    /// A deep copy.
    pub fn duplicate(&self) -> (r: Self)
        ensures
            r == *self,
    {
        ChannelConfig {
            ty: self.ty.clone(),
            serialization: self.serialization.clone(),
            config: self.config.clone(),
        }
    }
}

/// The items among the first `n` whose verdict is `true`, in order.
pub open spec fn kept_by<T>(items: Seq<T>, verdicts: Seq<bool>, n: int) -> Seq<T>
    decreases n,
{
    if n <= 0 {
        Seq::empty()
    } else if verdicts[n - 1] {
        kept_by(items, verdicts, n - 1).push(items[n - 1])
    } else {
        kept_by(items, verdicts, n - 1)
    }
}

/// The options whose verdict is `true`, in their order.
pub fn keep_accepted(options: &Vec<serde_json::Value>, accepted: &Vec<bool>) -> (r: Vec<
    serde_json::Value,
>)
    requires
        accepted@.len() == options@.len(),
    ensures
        r@ == kept_by(options@, accepted@, options@.len() as int),
{
    let mut r: Vec<serde_json::Value> = Vec::new();
    let mut i: usize = 0;
    while i < options.len()
        invariant
            i <= options@.len(),
            accepted@.len() == options@.len(),
            r@ == kept_by(options@, accepted@, i as int),
        decreases options@.len() - i,
    {
        if accepted[i] {
            r.push(options[i].clone());
        }
        i = i + 1;
    }
    r
}

/// The verdict of `schema` on each option.
pub open spec fn verdicts_of(options: Seq<serde_json::Value>, schema: jsonschema::JSONSchema) -> Seq<
    bool,
> {
    Seq::new(options.len(), |i: int| schema_verdict(schema, options[i]))
}

/// Whether `schema` accepts each option.
pub fn option_verdicts(options: &Vec<serde_json::Value>, schema: &jsonschema::JSONSchema) -> (r: Vec<
    bool,
>)
    ensures
        r@ == verdicts_of(options@, *schema),
{
    let mut r: Vec<bool> = Vec::new();
    let mut i: usize = 0;
    while i < options.len()
        invariant
            i <= options@.len(),
            r@ == verdicts_of(options@, *schema).take(i as int),
        decreases options@.len() - i,
    {
        r.push(schema_accepts(schema, &options[i]));
        i = i + 1;
        assert(r@ =~= verdicts_of(options@, *schema).take(i as int));
    }
    assert(verdicts_of(options@, *schema).take(i as int) =~= verdicts_of(options@, *schema));
    r
}

/// The options that `schema` accepts, in their order.
pub fn accepted_options(options: &Vec<serde_json::Value>, schema: &jsonschema::JSONSchema) -> (r:
    Vec<serde_json::Value>)
    ensures
        r@ == kept_by(options@, verdicts_of(options@, *schema), options@.len() as int),
{
    let verdicts = option_verdicts(options, schema);
    keep_accepted(options, &verdicts)
}

} // verus!
