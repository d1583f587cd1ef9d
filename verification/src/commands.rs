//! Commands: which operation to run, how often, with which algorithm and
//! on which secrets.

use crate::algorithms::AlgorithmName;
use crate::secrets::{Secret, Secrets};
use crate::utilities::{percent_from, percent_of};
use vstd::prelude::*;

verus! {

/// The operations that a command can ask for.
#[derive(Debug, Clone, Copy, PartialEq, Eq, Structural)]
pub enum CommandMethod {
    /// No scanning at all.
    Bypass,
    /// Whether anything matched.
    FindAnyMatch,
    /// The names of the secrets that matched.
    FindNames,
    /// The catalog positions of the secrets that matched.
    FindIndexes,
    /// The pattern texts of the secrets that matched.
    FindRegexes,
    /// The matched values themselves. These are the sensitive data.
    FindCaptures,
    /// Masks what matched.
    ReplaceMatches,
}

/// The parts of a response that a command searches.
#[derive(Debug, Clone, Copy, PartialEq, Eq, Structural)]
pub enum CommandSearch {
    SearchBody,
}

/// One unit of work.
pub struct Command<'a> {
    pub name: CommandMethod,
    pub search: Vec<CommandSearch>,
    pub percent: percentage::PercentageInteger,
    pub algorithm: Option<AlgorithmName>,
    pub secrets: Secrets<'a>,
}

impl<'a> Command<'a> {
    pub fn new(
        name: CommandMethod,
        search: Vec<CommandSearch>,
        percent: percentage::PercentageInteger,
        algorithm: Option<AlgorithmName>,
        secrets: Secrets<'a>,
    ) -> (command: Command<'a>)
        ensures
            command.name == name,
            command.search == search,
            command.percent == percent,
            command.algorithm == algorithm,
            command.secrets == secrets,
    {
        Command { name, search, percent, algorithm, secrets }
    }

    /// Whether the command searches the body.
    pub open spec fn searches_body(&self) -> bool {
        self.search@.contains(CommandSearch::SearchBody)
    }

    /// Whether the command searches the body.
    pub fn targets_body(&self) -> (yes: bool)
        ensures
            yes == self.searches_body(),
    {
        let mut i: usize = 0;
        while i < self.search.len()
            invariant
                i <= self.search.len(),
                forall|j: int| 0 <= j < i ==> self.search@[j] != CommandSearch::SearchBody,
            decreases self.search.len() - i,
        {
            if self.search[i] == CommandSearch::SearchBody {
                return true;
            }
            i += 1;
        }
        false
    }
}

/// An ordered list of commands, run in order against each body.
pub type Commands<'a> = Vec<Command<'a>>;

/// The pattern of American Express card numbers.
pub const CCARD_AMEX: &'static str = r"(35\d{13}|37\d{13})";

/// The commands to run: for every response, report whether the body holds
/// an American Express card number.
pub fn get_commands() -> (commands: Commands<'static>)
    ensures
        commands.len() == 1,
        commands[0].name == CommandMethod::FindAnyMatch,
        commands[0].search@ == seq![CommandSearch::SearchBody],
        percent_of(&commands[0].percent) == 100,
        commands[0].algorithm.is_none(),
        commands[0].secrets.len() == 1,
        commands[0].secrets[0].name@ == "amex"@,
        commands[0].secrets[0].regex@ == CCARD_AMEX@,
{
    let mut search: Vec<CommandSearch> = Vec::new();
    search.push(CommandSearch::SearchBody);
    let mut secrets: Secrets<'static> = Vec::new();
    secrets.push(Secret::new("amex", CCARD_AMEX));
    let mut commands: Commands<'static> = Vec::new();
    commands.push(
        Command::new(CommandMethod::FindAnyMatch, search, percent_from(100), None, secrets),
    );
    commands
}

} // verus!
