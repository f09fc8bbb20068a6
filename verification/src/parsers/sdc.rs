use vstd::hash_map::StringHashMap;
use vstd::prelude::*;

verus! {

/// A command of a constraints file, as far as the clock period depends on it.
pub enum SdcCommand {
    /// `create_clock` with the text of its period.
    CreateClock { period: String },
    /// `set` of a variable to a value.
    SetVariable { variable_name: String, value: String },
    /// Any other command.
    Other,
}

/// Why the clock period of a constraints file cannot be found.
#[derive(Copy, Clone, Debug, PartialEq, Eq, Structural)]
pub enum SdcError {
    /// A period refers to a variable that was not set before.
    UndefinedVariable,
}

/// Where the clock period stands: the numeral, and whether it is the value of a variable.
pub struct PeriodText {
    pub text: String,
    pub from_variable: bool,
}

/// The mathematical content of a `PeriodText`.
pub struct Period {
    pub text: Seq<char>,
    pub from_variable: bool,
}

impl View for PeriodText {
    type V = Period;

    open spec fn view(&self) -> Period {
        Period { text: self.text@, from_variable: self.from_variable }
    }
}

/// What a constraints file has said so far: the values of its variables and the last clock
/// period.
pub struct SdcState {
    pub variables: Map<Seq<char>, Seq<char>>,
    pub period: Option<Period>,
}

/// What the file has said after `command`. A period that starts with `$` is the value of
/// the variable named after the `$`, which must have been set; any other is the numeral
/// itself.
pub open spec fn after_command(state: SdcState, command: SdcCommand) -> Result<
    SdcState,
    SdcError,
> {
    match command {
        SdcCommand::CreateClock { period } => if period@.len() > 0 && period@[0] == '$' {
            let name = period@.drop_first();
            if state.variables.contains_key(name) {
                Ok(
                    SdcState {
                        period: Some(Period { text: state.variables[name], from_variable: true }),
                        ..state
                    },
                )
            } else {
                Err(SdcError::UndefinedVariable)
            }
        } else {
            Ok(SdcState { period: Some(Period { text: period@, from_variable: false }), ..state })
        },
        SdcCommand::SetVariable { variable_name, value } => Ok(
            SdcState { variables: state.variables.insert(variable_name@, value@), ..state },
        ),
        SdcCommand::Other => Ok(state),
    }
}

/// What the file has said after the commands `commands`, or the first error among them.
pub open spec fn after_commands(commands: Seq<SdcCommand>) -> Result<SdcState, SdcError>
    decreases commands.len(),
{
    if commands.len() == 0 {
        Ok(SdcState { variables: Map::empty(), period: None })
    } else {
        match after_commands(commands.drop_last()) {
            Err(e) => Err(e),
            Ok(state) => after_command(state, commands.last()),
        }
    }
}

/// An error among the first `from` commands is the error of any more of them.
proof fn lemma_error_stays(commands: Seq<SdcCommand>, from: int, upto: int)
    requires
        0 <= from <= upto <= commands.len(),
        after_commands(commands.take(from)) is Err,
    ensures
        after_commands(commands.take(upto)) == after_commands(commands.take(from)),
    decreases upto - from,
{
    if from < upto {
        lemma_error_stays(commands, from, upto - 1);
        assert(commands.take(upto).drop_last() =~= commands.take(upto - 1));
    }
}

/// The text `s` without its first character.
fn without_first(s: &str) -> (rest: String)
    ensures
        s@.len() > 0 ==> rest@ == s@.drop_first(),
{
    let mut rest = String::new();
    let mut first = true;
    for c in it: s.chars()
        invariant
            it.seq() == s@,
            first <==> it.index() == 0,
            !first ==> rest@ == s@.subrange(1, it.index() as int),
            first ==> rest@.len() == 0,
    {
        if first {
            first = false;
            proof {
                assert(rest@ =~= s@.subrange(1, 1));
            }
        } else {
            rest.push(c);
            proof {
                assert(rest@ =~= s@.subrange(1, it.index() + 1));
            }
        }
    }
    proof {
        if s@.len() > 0 {
            assert(s@.subrange(1, s@.len() as int) =~= s@.drop_first());
        }
    }
    rest
}

/// Whether `s` starts with a dollar sign.
fn starts_with_dollar(s: &str) -> (yes: bool)
    ensures
        yes == (s@.len() > 0 && s@[0] == '$'),
{
    let mut yes = false;
    let mut first = true;
    for c in it: s.chars()
        invariant
            it.seq() == s@,
            first <==> it.index() == 0,
            !first ==> yes == (s@[0] == '$'),
            first ==> !yes,
    {
        if first {
            yes = c == '$';
            first = false;
        }
    }
    yes
}

/// Finds the clock period that the commands of a constraints file give: that of the last
/// `create_clock`, if there is one.
pub fn clock_period(commands: &Vec<SdcCommand>) -> (result: Result<Option<PeriodText>, SdcError>)
    ensures
        match after_commands(commands@) {
            Err(e) => result is Err && result->Err_0 == e,
            Ok(state) => result is Ok && match state.period {
                Some(period) => result->Ok_0 is Some && result->Ok_0->0@ == period,
                None => result->Ok_0 is None,
            },
        },
{
    let mut variables: StringHashMap<String> = StringHashMap::new();
    let mut found: Option<PeriodText> = None;
    let mut i: usize = 0;
    proof {
        assert(commands@.take(0) =~= Seq::<SdcCommand>::empty());
    }
    while i < commands.len()
        invariant
            i <= commands.len(),
            after_commands(commands@.take(i as int)) matches Ok(state) && {
                &&& state.variables.dom() == variables@.dom()
                &&& forall|name: Seq<char>| #[trigger]
                    variables@.contains_key(name) ==> variables@[name]@ == state.variables[name]
                &&& match state.period {
                    Some(period) => found is Some && found->0@ == period,
                    None => found is None,
                }
            },
        decreases commands.len() - i,
    {
        let ghost before = after_commands(commands@.take(i as int))->Ok_0;
        proof {
            assert(commands@.take(i + 1).drop_last() =~= commands@.take(i as int));
            assert(commands@.take(i + 1).last() == commands@[i as int]);
        }
        match &commands[i] {
            SdcCommand::CreateClock { period } => {
                if starts_with_dollar(period.as_str()) {
                    let name = without_first(period.as_str());
                    match variables.get(name.as_str()) {
                        Some(value) => {
                            found = Some(PeriodText { text: value.clone(), from_variable: true });
                        },
                        None => {
                            proof {
                                assert(!before.variables.contains_key(name@));
                                lemma_error_stays(commands@, i + 1, commands.len() as int);
                                assert(commands@.take(commands.len() as int) =~= commands@);
                            }
                            return Err(SdcError::UndefinedVariable);
                        },
                    }
                } else {
                    found = Some(PeriodText { text: period.clone(), from_variable: false });
                }
            },
            SdcCommand::SetVariable { variable_name, value } => {
                variables.insert(variable_name.clone(), value.clone());
                proof {
                    let after = after_commands(commands@.take(i + 1))->Ok_0;
                    assert(after.variables.dom() =~= variables@.dom());
                }
            },
            SdcCommand::Other => {},
        }
        i += 1;
    }
    proof {
        assert(commands@.take(commands.len() as int) =~= commands@);
    }
    Ok(found)
}

} // verus!
