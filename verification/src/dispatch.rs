//! Interaction parsing and dispatch: an incoming interaction is parsed
//! into one of the handler families and routed through the registry; a
//! route miss is reported, never thrown.

use vstd::prelude::*;
use crate::handler::{CommandHandler, ComponentInteractionHandler};
use crate::modreg::Registry;
use crate::text::str_eq;

verus! {

/// A command option value, reduced to what the dispatcher reads.
pub enum OptionValue {
    Text(String),
    Integer(i64),
    Boolean(bool),
    Other,
}

/// The data of a received interaction, reduced to what routing needs.
pub enum InteractionData {
    /// A slash command invocation: its name and named options.
    ApplicationCommand { name: String, options: Vec<(String, OptionValue)> },
    /// A component interaction: the component's custom id and the selected
    /// values.
    MessageComponent { custom_id: String, values: Vec<String> },
    /// A modal submission.
    ModalSubmit { custom_id: String },
    /// A kind this runtime does not know.
    Unknown,
}

/// Why an interaction could not be dispatched.
#[derive(Debug)]
pub enum DispatchError {
    /// No handler is registered for this command name or custom id.
    RouteMiss(String),
    /// The interaction kind is recognized but not implemented.
    NotImplemented,
    /// The interaction carried no data or an unknown kind.
    Parse,
}

/// Where an interaction is routed.
pub enum Route<'a> {
    /// Run this command handler.
    Command(&'a CommandHandler),
    /// Run this component handler.
    Component(&'a ComponentInteractionHandler),
}

/// Routes an interaction through the registry:
/// - a command is looked up by name, and a missing name is a `RouteMiss`;
/// - a component interaction is looked up by custom id, likewise;
/// - a modal submission is recognized but `NotImplemented`;
/// - anything else is a parse error.
/// No error escapes as a panic: the consume loop goes on.
pub fn route_interaction<'a>(registry: &'a Registry, data: &InteractionData) -> (r: Result<
    Route<'a>,
    DispatchError,
>)
    requires
        registry.wf(),
    ensures
        (*data) matches InteractionData::ApplicationCommand { name, options } ==> {
            &&& r is Ok <==> registry.commands.as_map().dom().contains(name@)
            &&& r is Ok ==> (r->Ok_0 matches Route::Command(h) && *h
                == registry.commands.as_map()[name@])
            &&& r is Err ==> (r->Err_0 matches DispatchError::RouteMiss(n) && n@ == name@)
        },
        (*data) matches InteractionData::MessageComponent { custom_id, values } ==> {
            &&& r is Ok <==> registry.components.as_map().dom().contains(custom_id@)
            &&& r is Ok ==> (r->Ok_0 matches Route::Component(h) && *h
                == registry.components.as_map()[custom_id@])
            &&& r is Err ==> (r->Err_0 matches DispatchError::RouteMiss(n) && n@
                == custom_id@)
        },
        (*data) is ModalSubmit ==> r matches Err(DispatchError::NotImplemented),
        (*data) is Unknown ==> r matches Err(DispatchError::Parse),
{
    match data {
        InteractionData::ApplicationCommand { name, options } => {
            match registry.find_command(name.as_str()) {
                Some(handler) => Ok(Route::Command(handler)),
                None => Err(DispatchError::RouteMiss(name.clone())),
            }
        },
        InteractionData::MessageComponent { custom_id, values } => {
            match registry.components.get(custom_id.as_str()) {
                Some(handler) => Ok(Route::Component(handler)),
                None => Err(DispatchError::RouteMiss(custom_id.clone())),
            }
        },
        InteractionData::ModalSubmit { custom_id } => Err(DispatchError::NotImplemented),
        InteractionData::Unknown => Err(DispatchError::Parse),
    }
}

/// The index of the first option with this name, if any.
pub open spec fn spec_first_option(options: Seq<(String, OptionValue)>, name: Seq<char>) -> Option<
    int,
>
    decreases options.len(),
{
    if options.len() == 0 {
        None
    } else if options.first().0@ == name {
        Some(0int)
    } else {
        match spec_first_option(options.drop_first(), name) {
            Some(i) => Some(i + 1),
            None => None,
        }
    }
}

/// A maximal name-free prefix followed by a match (or the end) pins the
/// first matching index.
proof fn lemma_first_option_unique(options: Seq<(String, OptionValue)>, name: Seq<char>, i: int)
    requires
        0 <= i <= options.len(),
        forall|m: int| 0 <= m < i ==> (#[trigger] options[m]).0@ != name,
        i == options.len() || options[i].0@ == name,
    ensures
        spec_first_option(options, name) == (if i == options.len() {
            None
        } else {
            Some(i)
        }),
    decreases i,
{
    if options.len() == 0 {
    } else if i == 0 {
    } else {
        assert(options[0].0@ != name);
        let rest = options.drop_first();
        assert forall|m: int| 0 <= m < i - 1 implies (#[trigger] rest[m]).0@ != name by {
            assert(rest[m] == options[m + 1]);
        }
        if i < options.len() {
            assert(rest[i - 1] == options[i]);
        }
        lemma_first_option_unique(rest, name, i - 1);
    }
}

/// Extracts a named string option: `Ok(None)` exactly when no option has
/// the name; otherwise the first matching option decides, yielding its
/// text or an error when it is not a text option.
pub fn get_arg_string_optional(options: &Vec<(String, OptionValue)>, name: &str) -> (r: Result<
    Option<String>,
    DispatchError,
>)
    ensures
        (spec_first_option(options@, name@) is None) <==> (r matches Ok(o) && o is None),
        spec_first_option(options@, name@) matches Some(i) ==> options@[i].1 matches
            OptionValue::Text(t) ==> (r matches Ok(o) && (o matches Some(v) && v@ == t@)),
        spec_first_option(options@, name@) matches Some(i) ==> (!(options@[i].1 is Text) ==> r
            matches Err(DispatchError::Parse)),
{
    let n = options.len();
    let mut i: usize = 0;
    loop
        invariant
            0 <= i <= n,
            n == options@.len(),
            forall|m: int| 0 <= m < i ==> (#[trigger] options@[m]).0@ != name@,
        ensures
            i <= n,
            forall|m: int| 0 <= m < i ==> (#[trigger] options@[m]).0@ != name@,
            i < n ==> options@[i as int].0@ == name@,
        decreases n - i,
    {
        if i >= n {
            break;
        }
        if str_eq(options[i].0.as_str(), name) {
            break;
        }
        i = i + 1;
    }
    proof {
        lemma_first_option_unique(options@, name@, i as int);
    }
    if i >= n {
        return Ok(None);
    }
    match &options[i].1 {
        OptionValue::Text(v) => Ok(Some(v.clone())),
        _ => Err(DispatchError::Parse),
    }
}

/// Extracts a required named string option: the first matching option's
/// text, a `RouteMiss` exactly when the name is absent, and an error when
/// the first match is not a text option.
pub fn get_arg_string(options: &Vec<(String, OptionValue)>, name: &str) -> (r: Result<
    String,
    DispatchError,
>)
    ensures
        (spec_first_option(options@, name@) is None) <==> (r matches Err(
            DispatchError::RouteMiss(n),
        ) && n@ == name@),
        spec_first_option(options@, name@) matches Some(i) ==> options@[i].1 matches
            OptionValue::Text(t) ==> (r matches Ok(v) && v@ == t@),
        spec_first_option(options@, name@) matches Some(i) ==> (!(options@[i].1 is Text) ==> r
            matches Err(DispatchError::Parse)),
{
    match get_arg_string_optional(options, name) {
        Ok(Some(v)) => Ok(v),
        Ok(None) => Err(DispatchError::RouteMiss(name.to_owned())),
        Err(e) => {
            proof {
                let fo = spec_first_option(options@, name@);
                if fo is Some && options@[fo->0].1 is Text {
                    assert(false);
                }
            }
            Err(e)
        },
    }
}

} // verus!
