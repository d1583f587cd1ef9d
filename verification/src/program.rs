//! Running commands against a body: which operation a command asks for,
//! what it reports, and what it leaves of the body.

use crate::algorithms::AlgorithmName;
use crate::commands::{Command, CommandMethod, Commands};
use crate::matcher::{occurring_patterns, pattern_compiles};
use crate::search::{
    confirmed, fault_of, first_unredactable, lists_captured, lists_confirmed, lists_labelled,
    redactable, redacted, redaction_fault, scan_fault, ScanError, SearchMethods,
};
use crate::secrets::pattern_texts;
use crate::utilities::{draw_hundred, hit, local_rng, percent_of, percent_value, should_execute};
use vstd::prelude::*;

verus! {

/// What a command found.
#[derive(Debug)]
pub enum MatchReport {
    /// The command did not run: it was not drawn this time, or it does not
    /// search the body.
    Skipped,
    /// The command ran and asked for nothing.
    Bypassed,
    /// Whether any secret was confirmed.
    AnyMatch(bool),
    /// The names of the confirmed secrets.
    Names(Vec<String>),
    /// The pattern texts of the confirmed secrets.
    Regexes(Vec<String>),
    /// The catalog positions of the confirmed secrets.
    Indexes(Vec<usize>),
    /// The captured values: the sensitive data themselves.
    Captures(Vec<String>),
    /// The catalog positions whose matches were masked.
    Replaced(Vec<usize>),
}

impl MatchReport {
    /// Whether the report holds sensitive data, which must not be logged
    /// as they are.
    pub fn is_sensitive(&self) -> (sensitive: bool)
        ensures
            sensitive == (*self is Captures),
    {
        match self {
            MatchReport::Captures(_) => true,
            _ => false,
        }
    }
}

/// Some catalog position is confirmed.
pub open spec fn any_confirmed(
    algorithm: &Option<AlgorithmName>,
    texts: Seq<Seq<char>>,
    body: Seq<u8>,
) -> bool {
    exists|index: usize| #[trigger] confirmed(algorithm, texts, body, index)
}

/// Whether the command's operation compiles each occurring pattern on its
/// own: it does where captures are looked at.
pub open spec fn compiles_each(command: &Command) -> bool {
    match command.name {
        CommandMethod::Bypass => false,
        CommandMethod::FindCaptures | CommandMethod::ReplaceMatches => true,
        _ => command.algorithm.is_some(),
    }
}

/// The report is what the command's operation finds in the body.
pub open spec fn reports(command: &Command, body: Seq<u8>, report: MatchReport) -> bool {
    let texts = pattern_texts(command.secrets@);
    let algorithm = &command.algorithm;
    match command.name {
        CommandMethod::Bypass => report is Bypassed,
        CommandMethod::FindAnyMatch => report matches MatchReport::AnyMatch(any) && any
            == any_confirmed(algorithm, texts, body),
        CommandMethod::FindNames => report matches MatchReport::Names(names) && lists_labelled(
            algorithm,
            command.secrets@,
            true,
            body,
            names.deep_view(),
        ),
        CommandMethod::FindRegexes => report matches MatchReport::Regexes(regexes)
            && lists_labelled(algorithm, command.secrets@, false, body, regexes.deep_view()),
        CommandMethod::FindIndexes => report matches MatchReport::Indexes(indexes)
            && lists_confirmed(algorithm, texts, body, indexes@),
        CommandMethod::FindCaptures => report matches MatchReport::Captures(values)
            && lists_captured(algorithm, texts, body, values.deep_view()),
        CommandMethod::ReplaceMatches => report matches MatchReport::Replaced(indexes)
            && lists_confirmed(algorithm, texts, body, indexes@),
    }
}

/// The body that a command leaves: masked at the positions it reports as
/// replaced, and as it was after every other report.
pub open spec fn body_after(command: &Command, body: Seq<u8>, report: MatchReport) -> Seq<u8> {
    match report {
        MatchReport::Replaced(indexes) => redacted(
            body,
            pattern_texts(command.secrets@),
            indexes@,
        ),
        _ => body,
    }
}

/// The outcome of running a command on a body: a fault exactly where the
/// scan cannot be made, with the body left as it was, and otherwise the
/// report of the command's operation and the body that it leaves.
pub open spec fn run_fits(
    command: &Command,
    before: Seq<u8>,
    after: Seq<u8>,
    outcome: Result<MatchReport, ScanError>,
) -> bool {
    let texts = pattern_texts(command.secrets@);
    match outcome {
        Ok(report) => (command.name != CommandMethod::Bypass ==> scan_fault(
            texts,
            before,
            compiles_each(command),
            None,
        )) && reports(command, before, report) && after == body_after(command, before, report),
        Err(fault) => command.name != CommandMethod::Bypass && scan_fault(
            texts,
            before,
            compiles_each(command),
            Some(fault),
        ) && after == before,
    }
}

/// Whether any pattern of the command's catalog is confirmed in the body.
/// With no algorithm this is one pass of the whole set over the body; with
/// one, the captures have to be looked at.
pub fn any_match<B: SearchMethods>(body: &B, command: &Command) -> (found: Result<bool, ScanError>)
    ensures
        scan_fault(
            pattern_texts(command.secrets@),
            body.content(),
            command.algorithm.is_some(),
            fault_of(found),
        ),
        found matches Ok(any) ==> any == any_confirmed(
            &command.algorithm,
            pattern_texts(command.secrets@),
            body.content(),
        ),
{
    let ghost texts = pattern_texts(command.secrets@);
    let ghost hits = occurring_patterns(texts, body.content());
    match &command.algorithm {
        None => {
            let found = body.find_any_match(command);
            proof {
                if hits.len() > 0 {
                    assert(hits.contains(hits[0]));
                    assert(confirmed(&command.algorithm, texts, body.content(), hits[0]));
                }
            }
            found
        },
        Some(_) => {
            match body.find_indexes(command, &command.algorithm) {
                Ok(indexes) => {
                    proof {
                        if indexes.len() > 0 {
                            assert(indexes@.contains(indexes@[0]));
                        }
                        if any_confirmed(&command.algorithm, texts, body.content()) {
                            let index = choose|index: usize| #[trigger]
                                confirmed(&command.algorithm, texts, body.content(), index);
                            assert(indexes@.contains(index));
                        }
                    }
                    Ok(indexes.len() > 0)
                },
                Err(fault) => Err(fault),
            }
        },
    }
}

/// Finds the confirmed catalog positions and masks their matches.
pub fn find_and_replace<B: SearchMethods>(body: &mut B, command: &Command) -> (found: Result<
    Vec<usize>,
    ScanError,
>)
    ensures
        scan_fault(pattern_texts(command.secrets@), old(body).content(), true, fault_of(found)),
        found matches Ok(indexes) ==> lists_confirmed(
            &command.algorithm,
            pattern_texts(command.secrets@),
            old(body).content(),
            indexes@,
        ) && final(body).content() == redacted(
            old(body).content(),
            pattern_texts(command.secrets@),
            indexes@,
        ),
        found is Err ==> final(body).content() == old(body).content(),
{
    let ghost texts = pattern_texts(command.secrets@);
    let ghost before = body.content();
    let ghost hits = occurring_patterns(texts, before);
    let indexes = match body.find_indexes(command, &command.algorithm) {
        Ok(indexes) => indexes,
        Err(fault) => {
            return Err(fault);
        },
    };
    proof {
        assert forall|j: int| 0 <= j < indexes.len() implies hits.contains(
            #[trigger] indexes@[j],
        ) by {
            assert(indexes@.contains(indexes@[j]));
        }
    }
    match body.replace_matches(&command.secrets, indexes.as_slice()) {
        Ok(()) => {
            proof {
                if command.algorithm.is_none() {
                    assert forall|index: usize| #[trigger]
                        hits.contains(index) implies pattern_compiles(
                        texts[index as int],
                    ) by {
                        assert(confirmed(&command.algorithm, texts, before, index));
                        assert(indexes@.contains(index));
                        let j = choose|j: int| 0 <= j < indexes.len() && indexes@[j] == index;
                        assert(redactable(texts, indexes@[j]));
                    }
                }
            }
            Ok(indexes)
        },
        Err(fault) => {
            proof {
                let k = choose|k: int| #[trigger]
                    first_unredactable(texts, indexes@, k) && fault
                        == redaction_fault(texts, indexes@[k]);
                let bad = indexes@[k];
                assert(hits.contains(bad));
                if command.algorithm.is_none() {
                    assert forall|index: usize| #[trigger]
                        hits.contains(index) && index < bad implies pattern_compiles(
                        texts[index as int],
                    ) by {
                        assert(confirmed(&command.algorithm, texts, before, index));
                        assert(indexes@.contains(index));
                        let j = choose|j: int| 0 <= j < indexes.len() && indexes@[j] == index;
                        if j >= k {
                            if j > k {
                                assert(indexes@[k] < indexes@[j]);
                            }
                        }
                        assert(redactable(texts, indexes@[j]));
                    }
                }
            }
            Err(fault)
        },
    }
}

/// Runs the command's operation on the body.
pub fn run_command<B: SearchMethods>(body: &mut B, command: &Command) -> (outcome: Result<
    MatchReport,
    ScanError,
>)
    ensures
        run_fits(command, old(body).content(), final(body).content(), outcome),
{
    match command.name {
        CommandMethod::Bypass => {
            body.bypass();
            Ok(MatchReport::Bypassed)
        },
        CommandMethod::FindAnyMatch => match any_match(body, command) {
            Ok(any) => Ok(MatchReport::AnyMatch(any)),
            Err(fault) => Err(fault),
        },
        CommandMethod::FindNames => match body.find_names(command, &command.algorithm) {
            Ok(names) => Ok(MatchReport::Names(names)),
            Err(fault) => Err(fault),
        },
        CommandMethod::FindRegexes => match body.find_regexes(command, &command.algorithm) {
            Ok(regexes) => Ok(MatchReport::Regexes(regexes)),
            Err(fault) => Err(fault),
        },
        CommandMethod::FindIndexes => match body.find_indexes(command, &command.algorithm) {
            Ok(indexes) => Ok(MatchReport::Indexes(indexes)),
            Err(fault) => Err(fault),
        },
        CommandMethod::FindCaptures => match body.find_captures(command, &command.algorithm) {
            Ok(values) => Ok(MatchReport::Captures(values)),
            Err(fault) => Err(fault),
        },
        CommandMethod::ReplaceMatches => match find_and_replace(body, command) {
            Ok(indexes) => Ok(MatchReport::Replaced(indexes)),
            Err(fault) => Err(fault),
        },
    }
}

/// Whether a command runs when the given number was drawn for it: the
/// number is below its percentage, and it searches the body.
pub open spec fn runs(command: &Command, draw: u8) -> bool {
    hit(percent_of(&command.percent), draw) && command.searches_body()
}

/// The outcome of one command, given the number drawn for it: where it
/// runs, that of its operation; where it does not, it is skipped and the
/// body stays as it was.
pub open spec fn step_fits(
    command: &Command,
    draw: u8,
    before: Seq<u8>,
    after: Seq<u8>,
    outcome: Result<MatchReport, ScanError>,
) -> bool {
    if runs(command, draw) {
        run_fits(command, before, after, outcome)
    } else {
        outcome matches Ok(report) && report is Skipped && after == before
    }
}

/// Decides from the number drawn whether the command runs, and runs it if
/// it does.
pub fn step<B: SearchMethods>(body: &mut B, command: &Command, draw: u8) -> (outcome: Result<
    MatchReport,
    ScanError,
>)
    ensures
        step_fits(command, draw, old(body).content(), final(body).content(), outcome),
{
    if should_execute(percent_value(&command.percent), draw) && command.targets_body() {
        run_command(body, command)
    } else {
        Ok(MatchReport::Skipped)
    }
}

/// The command at `i` ran on the body at stage `i`, with a number below
/// 100 drawn for it, gave its report and left the body at stage `i + 1`.
pub open spec fn step_at(
    commands: Seq<Command>,
    draws: Seq<u8>,
    stages: Seq<Seq<u8>>,
    reports: Seq<MatchReport>,
    i: int,
) -> bool {
    draws[i] < 100 && step_fits(&commands[i], draws[i], stages[i], stages[i + 1], Ok(reports[i]))
}

/// The first `count` commands ran in order, each on the body that the one
/// before it left: `stages` holds the body before each command and after
/// the last, `draws` the numbers drawn, each below 100, and `reports` what
/// the commands reported.
pub open spec fn program_ran(
    commands: Seq<Command>,
    draws: Seq<u8>,
    stages: Seq<Seq<u8>>,
    reports: Seq<MatchReport>,
    count: int,
) -> bool {
    &&& 0 <= count <= commands.len()
    &&& draws.len() >= count
    &&& reports.len() >= count
    &&& stages.len() > count
    &&& forall|i: int| 0 <= i < count ==> #[trigger] step_at(commands, draws, stages, reports, i)
}

/// The whole program ran on `before`, gave `reports` and left `after`.
pub open spec fn program_completes(
    commands: Seq<Command>,
    before: Seq<u8>,
    after: Seq<u8>,
    reports: Seq<MatchReport>,
) -> bool {
    reports.len() == commands.len() && exists|draws: Seq<u8>, stages: Seq<Seq<u8>>|
        #[trigger] program_ran(commands, draws, stages, reports, commands.len() as int)
            && stages[0] == before && stages[commands.len() as int] == after
}

/// The program ran on `before` up to a command that ended in `fault`, and
/// left `after`: the body as the commands before that one left it.
pub open spec fn program_fails(
    commands: Seq<Command>,
    before: Seq<u8>,
    after: Seq<u8>,
    fault: ScanError,
) -> bool {
    exists|draws: Seq<u8>, stages: Seq<Seq<u8>>, reports: Seq<MatchReport>, count: int|
        #[trigger] program_ran(commands, draws, stages, reports, count) && count < commands.len()
            && stages[0] == before && draws.len() > count && draws[count] < 100 && step_fits(
            &commands[count],
            draws[count],
            stages[count],
            after,
            Err(fault),
        )
}

/// Runs the commands in order against the body, drawing for each a number
/// that decides whether it runs this time. The reports come back in the
/// order of the commands. The first fault ends the run: the body is then
/// as the commands before it left it.
pub fn process_command<B: SearchMethods>(body: &mut B, commands: &Commands) -> (outcome: Result<
    Vec<MatchReport>,
    ScanError,
>)
    ensures
        outcome matches Ok(reports) ==> program_completes(
            commands@,
            old(body).content(),
            final(body).content(),
            reports@,
        ),
        outcome matches Err(fault) ==> program_fails(
            commands@,
            old(body).content(),
            final(body).content(),
            fault,
        ),
{
    let ghost start = body.content();
    let mut rng = local_rng();
    let mut reports: Vec<MatchReport> = Vec::new();
    let ghost mut draws: Seq<u8> = Seq::empty();
    let ghost mut stages: Seq<Seq<u8>> = seq![start];
    let mut i: usize = 0;
    while i < commands.len()
        invariant
            i <= commands.len(),
            reports.len() == i,
            draws.len() == i,
            stages.len() == i + 1,
            start == old(body).content(),
            stages[0] == start,
            stages[i as int] == body.content(),
            program_ran(commands@, draws, stages, reports@, i as int),
        decreases commands.len() - i,
    {
        let draw: u8 = draw_hundred(&mut rng);
        let ghost earlier_draws = draws;
        let ghost earlier_stages = stages;
        let ghost earlier_reports = reports@;
        match step(body, &commands[i], draw) {
            Ok(report) => {
                reports.push(report);
                proof {
                    draws = draws.push(draw);
                    stages = stages.push(body.content());
                    assert forall|j: int| 0 <= j < i + 1 implies #[trigger] step_at(
                        commands@,
                        draws,
                        stages,
                        reports@,
                        j,
                    ) by {
                        if j < i {
                            assert(step_at(
                                commands@,
                                earlier_draws,
                                earlier_stages,
                                earlier_reports,
                                j,
                            ));
                        }
                    }
                }
            },
            Err(fault) => {
                proof {
                    draws = draws.push(draw);
                    assert(program_ran(commands@, draws, stages, reports@, i as int)) by {
                        assert forall|j: int| 0 <= j < i implies #[trigger] step_at(
                            commands@,
                            draws,
                            stages,
                            reports@,
                            j,
                        ) by {
                            assert(step_at(
                                commands@,
                                earlier_draws,
                                earlier_stages,
                                earlier_reports,
                                j,
                            ));
                        }
                    }
                }
                return Err(fault);
            },
        }
        i += 1;
    }
    Ok(reports)
}

} // verus!
