use vstd::prelude::*;
use vstd::string::*;

verus! {

/// Why a plugin declaration cannot be registered.
#[derive(Clone, Copy, Debug, PartialEq, Eq, Structural)]
pub enum DeclarationError {
    /// Both message triggers (commands, prefixes, regex) and a callback trigger.
    BothTriggerKinds,
    /// No trigger at all.
    NoTrigger,
}

/// One handler's trigger conditions. The handler itself is kept by the caller,
/// under the index that registration hands back.
#[derive(Clone, Debug)]
pub struct PluginMeta {
    pub name: String,
    pub commands: Vec<String>,
    pub prefixes: Vec<String>,
    pub regex: Option<String>,
    pub callback_filter: Option<String>,
}

/// The characters of an optional string.
pub open spec fn opt_view(o: Option<String>) -> Option<Seq<char>> {
    match o {
        Some(s) => Some(s@),
        None => None,
    }
}

/// The patterns joined into one alternation: `a|b|c`.
pub open spec fn alternation(ps: Seq<Seq<char>>) -> Seq<char>
    decreases ps.len(),
{
    if ps.len() <= 1 {
        if ps.len() == 0 { Seq::empty() } else { ps[0] }
    } else {
        alternation(ps.drop_last()) + seq!['|'] + ps.last()
    }
}

/// What a list of declared patterns is stored as: nothing when the list is
/// empty, else one alternation of them all.
pub open spec fn combined(ps: Seq<Seq<char>>) -> Option<Seq<char>> {
    if ps.len() == 0 { None } else { Some(alternation(ps)) }
}

pub open spec fn views(v: Seq<String>) -> Seq<Seq<char>> {
    v.map_values(|s: String| s@)
}

/// The kind of handler a declaration makes, from its commands, its prefixes and
/// whether it has a regex and a callback filter: `Ok(true)` for a callback
/// handler, `Ok(false)` for a message handler, or why it is no valid declaration.
pub open spec fn handler_kind(
    commands: Seq<String>,
    prefixes: Seq<String>,
    has_regex: bool,
    has_callback: bool,
) -> Result<bool, DeclarationError> {
    let m = commands.len() > 0 || prefixes.len() > 0 || has_regex;
    let c = has_callback;
    if m && c {
        Err(DeclarationError::BothTriggerKinds)
    } else if m {
        Ok(false)
    } else if c {
        Ok(true)
    } else {
        Err(DeclarationError::NoTrigger)
    }
}

impl PluginMeta {
    /// A descriptor populates exactly one trigger category.
    pub open spec fn well_formed(&self) -> bool {
        handler_kind(
            self.commands@,
            self.prefixes@,
            self.regex.is_some(),
            self.callback_filter.is_some(),
        ) is Ok
    }
}

/// Decides whether a declaration makes a callback handler (`Ok(true)`) or a
/// message handler (`Ok(false)`), rejecting one with both kinds of trigger or none.
pub fn determine_handler_type(
    commands: &Vec<String>,
    prefixes: &Vec<String>,
    regex: &Option<String>,
    callback_filter: &Option<String>,
) -> (r: Result<bool, DeclarationError>)
    ensures
        r == handler_kind(commands@, prefixes@, regex.is_some(), callback_filter.is_some()),
{
    let has_message_triggers = commands.len() > 0 || prefixes.len() > 0 || regex.is_some();
    let has_callback_triggers = callback_filter.is_some();
    if has_message_triggers && has_callback_triggers {
        Err(DeclarationError::BothTriggerKinds)
    } else if has_message_triggers {
        Ok(false)
    } else if has_callback_triggers {
        Ok(true)
    } else {
        Err(DeclarationError::NoTrigger)
    }
}

/// Combines several declared patterns into the single one that a descriptor
/// stores: none for an empty list, the pattern itself for one, else `a|b|...`.
pub fn combine_patterns(patterns: &Vec<String>) -> (r: Option<String>)
    ensures
        opt_view(r) == combined(views(patterns@)),
{
    let n = patterns.len();
    if n == 0 {
        return None;
    }
    let mut joined = patterns[0].clone();
    let ghost ps = views(patterns@);
    assert(ps.take(1).drop_last() =~= Seq::<Seq<char>>::empty());
    let mut i: usize = 1;
    while i < n
        invariant
            1 <= i <= n,
            n == patterns@.len(),
            ps == views(patterns@),
            joined@ == alternation(ps.take(i as int)),
        decreases n - i,
    {
        proof {
            reveal_strlit("|");
        }
        joined.append("|");
        joined.append(patterns[i].as_str());
        assert(ps.take(i + 1).drop_last() =~= ps.take(i as int));
        i = i + 1;
    }
    assert(ps.take(n as int) =~= ps);
    Some(joined)
}

/// Builds a descriptor from declared triggers: each list of regex patterns or
/// callback filters is combined into one, and a declaration with both kinds of
/// trigger, or none, is rejected.
#[allow(non_snake_case)]
pub fn TeloxidePlugin(
    name: String,
    commands: Vec<String>,
    prefixes: Vec<String>,
    regex: Vec<String>,
    callback: Vec<String>,
) -> (r: Result<PluginMeta, DeclarationError>)
    ensures
        match r {
            Ok(m) => {
                &&& m.name == name
                &&& m.commands == commands
                &&& m.prefixes == prefixes
                &&& opt_view(m.regex) == combined(views(regex@))
                &&& opt_view(m.callback_filter) == combined(views(callback@))
                &&& m.well_formed()
            },
            Err(e) => handler_kind(commands@, prefixes@, regex@.len() > 0, callback@.len() > 0)
                == Err::<bool, DeclarationError>(e),
        },
        r is Ok <==> handler_kind(commands@, prefixes@, regex@.len() > 0, callback@.len() > 0) is Ok,
{
    let regex_pattern = combine_patterns(&regex);
    let callback_filter = combine_patterns(&callback);
    match determine_handler_type(&commands, &prefixes, &regex_pattern, &callback_filter) {
        Ok(_) => Ok(PluginMeta { name, commands, prefixes, regex: regex_pattern, callback_filter }),
        Err(e) => Err(e),
    }
}

} // verus!
