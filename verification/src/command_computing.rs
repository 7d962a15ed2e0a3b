//! The state parser and the diff engine. A parsed state is the ordered log
//! of recognized actions plus one lookup table per domain, derived from the
//! same scan. The diff of two states is the removals over the current log in
//! reverse declaration order, then the installs and updates over the target
//! log in declaration order.

use vstd::prelude::*;

use crate::cargo_handling::{
    cargo_views, compute_crate_install_or_update_command, compute_crate_removal_command,
    parse_line_with_cargo_install, spec_crate_install_or_update, spec_crate_removal,
    spec_parse_cargo_line, CargoInstall,
};
use crate::command::{opt_command_view, Command};
use crate::errors::{ParseError, ParseErrorV};
use crate::git_handling::{
    compute_git_global_config_removal_command, compute_git_global_config_set_or_update_command,
    git_views, parse_stripped_line_with_git_config_set_global, spec_git_removal,
    spec_git_set_or_update, spec_parse_git_line, GitConfigSetGlobal,
};
use crate::pixi_handling::{
    compute_recipe_install_or_update_command, compute_recipe_removal_command, pixi_views,
    parse_stripped_line_with_pixi_global_install, spec_parse_pixi_line, spec_recipe_removal,
    spec_recipe_install_or_update, PixiGlobalInstall,
};
use crate::strutil::{
    find_sub, find_substring, is_prefix, lemma_map_values_push, lemma_trim_start_idempotent,
    lines_of, spec_lines, spec_trim_start, starts_with, trim_start,
};
use crate::table::{lemma_pairs_unique_push, pairs_map, pairs_unique};

verus! {

/// One recognized action of any domain.
#[derive(Debug)]
pub enum Action {
    CargoInstall(CargoInstall),
    PixiGlobalInstall(PixiGlobalInstall),
    GitConfigSetGlobal(GitConfigSetGlobal),
}

/// The mathematical value of an action.
pub enum ActionV {
    Cargo { crate_name: Seq<char>, command: Seq<Seq<char>> },
    Pixi { recipe: Seq<char>, recipe_and_version: Seq<char> },
    Git { option_name: Seq<char>, value: Seq<char> },
}

impl View for Action {
    type V = ActionV;

    open spec fn view(&self) -> ActionV {
        match self {
            Action::CargoInstall(a) => ActionV::Cargo {
                crate_name: a.crate_name@,
                command: a.command@,
            },
            Action::PixiGlobalInstall(a) => ActionV::Pixi {
                recipe: a.recipe@,
                recipe_and_version: a.recipe_and_version@,
            },
            Action::GitConfigSetGlobal(a) => ActionV::Git {
                option_name: a.option_name@,
                value: a.value@,
            },
        }
    }
}

/// The identity/payload pairs the package domain contributes to a log, in
/// declaration order.
pub open spec fn cargo_pairs_of(log: Seq<ActionV>) -> Seq<(Seq<char>, Seq<Seq<char>>)> {
    log.filter(|a: ActionV| a is Cargo).map_values(
        |a: ActionV| (a->Cargo_crate_name, a->Cargo_command),
    )
}

pub open spec fn pixi_pairs_of(log: Seq<ActionV>) -> Seq<(Seq<char>, Seq<char>)> {
    log.filter(|a: ActionV| a is Pixi).map_values(
        |a: ActionV| (a->Pixi_recipe, a->Pixi_recipe_and_version),
    )
}

pub open spec fn git_pairs_of(log: Seq<ActionV>) -> Seq<(Seq<char>, Seq<char>)> {
    log.filter(|a: ActionV| a is Git).map_values(|a: ActionV| (a->Git_option_name, a->Git_value))
}

pub open spec fn cargo_map_of(log: Seq<ActionV>) -> Map<Seq<char>, Seq<Seq<char>>> {
    pairs_map(cargo_pairs_of(log))
}

pub open spec fn pixi_map_of(log: Seq<ActionV>) -> Map<Seq<char>, Seq<char>> {
    pairs_map(pixi_pairs_of(log))
}

pub open spec fn git_map_of(log: Seq<ActionV>) -> Map<Seq<char>, Seq<char>> {
    pairs_map(git_pairs_of(log))
}

/// Identities are unique within each domain of the log.
pub open spec fn unique_identities(log: Seq<ActionV>) -> bool {
    pairs_unique(cargo_pairs_of(log)) && pairs_unique(pixi_pairs_of(log)) && pairs_unique(
        git_pairs_of(log),
    )
}

/// A package action carries a well-formed command.
pub open spec fn action_wf(a: ActionV) -> bool {
    match a {
        ActionV::Cargo { command, .. } => command.len() > 0 && command[0].len() > 0,
        _ => true,
    }
}

/// One parsed state: the ordered action log, and one lookup table per domain
/// derived from the same scan.
#[derive(Debug)]
pub struct State {
    pub ordered_actions: Vec<Action>,
    pub cargo_table: Vec<CargoInstall>,
    pub pixi_table: Vec<PixiGlobalInstall>,
    pub git_table: Vec<GitConfigSetGlobal>,
}

impl View for State {
    type V = Seq<ActionV>;

    open spec fn view(&self) -> Seq<ActionV> {
        self.ordered_actions@.map_values(|a: Action| a@)
    }
}

impl State {
    /// Each table holds exactly its domain's actions from the log in
    /// declaration order, identities are unique within each domain, and every
    /// recorded command is well-formed.
    pub open spec fn wf(&self) -> bool {
        &&& cargo_views(self.cargo_table@) == cargo_pairs_of(self@)
        &&& pixi_views(self.pixi_table@) == pixi_pairs_of(self@)
        &&& git_views(self.git_table@) == git_pairs_of(self@)
        &&& unique_identities(self@)
        &&& forall|i: int| 0 <= i < self@.len() ==> action_wf(#[trigger] self@[i])
    }
}

/// What one line does to the log: skipped, one action appended, or the parse
/// aborted with the error wrapped with the line number and the verbatim line.
/// The first matching domain marker wins; a line matching none is ignored.
pub open spec fn spec_parse_line(line: Seq<char>, line_number: int, log: Seq<ActionV>) -> Result<
    Seq<ActionV>,
    ParseErrorV,
> {
    let t = spec_trim_start(line);
    if t.len() > 0 && t[0] == '#' {
        Ok(log)
    } else if find_sub(t, "cargo install "@) is Some {
        match spec_parse_cargo_line(t, cargo_map_of(log)) {
            Ok(p) => Ok(log.push(ActionV::Cargo { crate_name: p.0, command: p.1 })),
            Err(k) => Err(ParseErrorV { line_number, line, kind: k }),
        }
    } else if is_prefix(t, "pixi global install "@) {
        match spec_parse_pixi_line(t.skip("pixi global install "@.len() as int), pixi_map_of(log)) {
            Ok(p) => Ok(log.push(ActionV::Pixi { recipe: p.0, recipe_and_version: p.1 })),
            Err(k) => Err(ParseErrorV { line_number, line, kind: k }),
        }
    } else if is_prefix(t, "git config set --global "@) {
        match spec_parse_git_line(
            t.skip("git config set --global "@.len() as int),
            git_map_of(log),
        ) {
            Ok(p) => Ok(log.push(ActionV::Git { option_name: p.0, value: p.1 })),
            Err(k) => Err(ParseErrorV { line_number, line, kind: k }),
        }
    } else {
        Ok(log)
    }
}

/// The log after the first `k` lines, or the first error.
pub open spec fn spec_parse_upto(lines: Seq<Seq<char>>, k: int) -> Result<Seq<ActionV>, ParseErrorV>
    decreases k,
{
    if k <= 0 {
        Ok(Seq::empty())
    } else {
        match spec_parse_upto(lines, k - 1) {
            Ok(log) => spec_parse_line(lines[k - 1], k, log),
            Err(e) => Err(e),
        }
    }
}

/// What parsing a whole text yields: the action log in declaration order, or
/// the first line's error.
pub open spec fn spec_parse_state(text: Seq<char>) -> Result<Seq<ActionV>, ParseErrorV> {
    spec_parse_upto(spec_lines(text), spec_lines(text).len() as int)
}

pub proof fn lemma_parse_upto_err(lines: Seq<Seq<char>>, k: int, m: int)
    requires
        0 <= k <= m,
        spec_parse_upto(lines, k) is Err,
    ensures
        spec_parse_upto(lines, m) == spec_parse_upto(lines, k),
    decreases m - k,
{
    if m > k {
        lemma_parse_upto_err(lines, k, m - 1);
    }
}

/// Appending an action appends its pair to its own domain's projection and
/// leaves the other domains' projections unchanged.
pub proof fn lemma_pairs_of_push(log: Seq<ActionV>, a: ActionV)
    ensures
        cargo_pairs_of(log.push(a)) == if a is Cargo {
            cargo_pairs_of(log).push((a->Cargo_crate_name, a->Cargo_command))
        } else {
            cargo_pairs_of(log)
        },
        pixi_pairs_of(log.push(a)) == if a is Pixi {
            pixi_pairs_of(log).push((a->Pixi_recipe, a->Pixi_recipe_and_version))
        } else {
            pixi_pairs_of(log)
        },
        git_pairs_of(log.push(a)) == if a is Git {
            git_pairs_of(log).push((a->Git_option_name, a->Git_value))
        } else {
            git_pairs_of(log)
        },
{
    reveal(Seq::filter);
    assert(log.push(a).drop_last() =~= log);
    assert(log.push(a).last() == a);
    let pc = |x: ActionV| x is Cargo;
    let pp = |x: ActionV| x is Pixi;
    let pg = |x: ActionV| x is Git;
    assert(log.push(a).filter(pc) == if pc(a) {
        log.filter(pc).push(a)
    } else {
        log.filter(pc)
    });
    assert(log.push(a).filter(pp) == if pp(a) {
        log.filter(pp).push(a)
    } else {
        log.filter(pp)
    });
    assert(log.push(a).filter(pg) == if pg(a) {
        log.filter(pg).push(a)
    } else {
        log.filter(pg)
    });
    if a is Cargo {
        lemma_map_values_push(
            log.filter(pc),
            |x: ActionV| (x->Cargo_crate_name, x->Cargo_command),
            a,
        );
    }
    if a is Pixi {
        lemma_map_values_push(
            log.filter(pp),
            |x: ActionV| (x->Pixi_recipe, x->Pixi_recipe_and_version),
            a,
        );
    }
    if a is Git {
        lemma_map_values_push(log.filter(pg), |x: ActionV| (x->Git_option_name, x->Git_value), a);
    }
}

/// Parses a whole text line by line: comment lines and lines matching no
/// domain marker are skipped, each matching line's action is recorded, and
/// the first grammar error aborts the parse, wrapped with its 1-based line
/// number and verbatim line. Succeeds exactly when `spec_parse_state` does,
/// with exactly its log or its error.
pub fn parse_state_from_file_content(file_content: &str) -> (r: Result<State, ParseError>)
    ensures
        match r {
            Ok(st) => spec_parse_state(file_content@) matches Ok(log) && st@ == log && st.wf(),
            Err(e) => spec_parse_state(file_content@) matches Err(ev) && e@ == ev,
        },
{
    let lines = lines_of(file_content);
    let ghost linesv = lines@.map_values(|t: String| t@);
    let mut ordered_actions: Vec<Action> = Vec::new();
    let mut cargo_table: Vec<CargoInstall> = Vec::new();
    let mut pixi_table: Vec<PixiGlobalInstall> = Vec::new();
    let mut git_table: Vec<GitConfigSetGlobal> = Vec::new();
    let n = lines.len();
    let mut idx: usize = 0;
    proof {
        reveal(Seq::filter);
        assert(ordered_actions@.map_values(|a: Action| a@) =~= Seq::<ActionV>::empty());
        assert(cargo_views(cargo_table@) =~= Seq::<(Seq<char>, Seq<Seq<char>>)>::empty());
        assert(pixi_views(pixi_table@) =~= Seq::<(Seq<char>, Seq<char>)>::empty());
        assert(git_views(git_table@) =~= Seq::<(Seq<char>, Seq<char>)>::empty());
        assert(Seq::<ActionV>::empty().filter(|a: ActionV| a is Cargo) =~= Seq::<ActionV>::empty());
        assert(Seq::<ActionV>::empty().filter(|a: ActionV| a is Pixi) =~= Seq::<ActionV>::empty());
        assert(Seq::<ActionV>::empty().filter(|a: ActionV| a is Git) =~= Seq::<ActionV>::empty());
        assert(cargo_pairs_of(Seq::<ActionV>::empty()) =~= Seq::<(Seq<char>, Seq<Seq<char>>)>::empty());
        assert(pixi_pairs_of(Seq::<ActionV>::empty()) =~= Seq::<(Seq<char>, Seq<char>)>::empty());
        assert(git_pairs_of(Seq::<ActionV>::empty()) =~= Seq::<(Seq<char>, Seq<char>)>::empty());
    }
    while idx < n
        invariant
            0 <= idx <= n,
            n == lines@.len(),
            linesv == lines@.map_values(|t: String| t@),
            linesv == spec_lines(file_content@),
            spec_parse_upto(linesv, idx as int) == Ok::<Seq<ActionV>, ParseErrorV>(
                ordered_actions@.map_values(|a: Action| a@),
            ),
            cargo_views(cargo_table@) == cargo_pairs_of(
                ordered_actions@.map_values(|a: Action| a@),
            ),
            pixi_views(pixi_table@) == pixi_pairs_of(ordered_actions@.map_values(|a: Action| a@)),
            git_views(git_table@) == git_pairs_of(ordered_actions@.map_values(|a: Action| a@)),
            unique_identities(ordered_actions@.map_values(|a: Action| a@)),
            forall|i: int|
                0 <= i < ordered_actions@.len() ==> action_wf((#[trigger] ordered_actions@[i])@),
        decreases n - idx,
    {
        let ghost logv = ordered_actions@.map_values(|a: Action| a@);
        let line = &lines[idx];
        let trimmed = trim_start(line.as_str());
        proof {
            assert(linesv[idx as int] == line@);
            lemma_trim_start_idempotent(line@);
        }
        let ghost t = trimmed@;
        let line_number = idx + 1;
        let is_comment = trimmed.unicode_len() > 0 && trimmed.get_char(0) == '#';
        if is_comment {
            proof {
                assert(spec_parse_line(linesv[idx as int], idx + 1, logv) == Ok::<
                    Seq<ActionV>,
                    ParseErrorV,
                >(logv));
            }
        } else {
            let found_cargo = find_substring(trimmed, "cargo install ");
            if found_cargo.is_some() {
                match parse_line_with_cargo_install(trimmed, &mut cargo_table) {
                    Ok(action) => {
                        let ghost p = action@;
                        let ghost av = ActionV::Cargo { crate_name: p.0, command: p.1 };
                        let wrapped = Action::CargoInstall(action);
                        proof {
                            assert(wrapped@ == av);
                            lemma_map_values_push(ordered_actions@, |a: Action| a@, wrapped);
                            lemma_pairs_of_push(logv, av);
                            assert(spec_parse_cargo_line(t, cargo_map_of(logv)) matches Ok(q)
                                && q == p);
                            assert(!cargo_map_of(logv).contains_key(p.0));
                            lemma_pairs_unique_push(cargo_pairs_of(logv), p);
                            assert(spec_parse_line(linesv[idx as int], idx + 1, logv) == Ok::<
                                Seq<ActionV>,
                                ParseErrorV,
                            >(logv.push(av)));
                            assert forall|i: int| 0 <= i < logv.push(av).len() implies action_wf(
                                #[trigger] logv.push(av)[i],
                            ) by {
                                if i < logv.len() {
                                    assert(action_wf(logv[i]));
                                }
                            }
                        }
                        ordered_actions.push(wrapped);
                    },
                    Err(kind) => {
                        let e = ParseError { line_number, line: line.clone(), kind };
                        proof {
                            assert(spec_parse_line(linesv[idx as int], idx + 1, logv) is Err);
                            assert(spec_parse_upto(linesv, idx + 1) == spec_parse_line(
                                linesv[idx as int],
                                idx + 1,
                                logv,
                            ));
                            lemma_parse_upto_err(linesv, idx + 1, linesv.len() as int);
                        }
                        return Err(e);
                    },
                }
            } else {
                let pixi_prefix = "pixi global install ";
                let git_prefix = "git config set --global ";
                if starts_with(trimmed, pixi_prefix) {
                    let stripped = trimmed.substring_char(
                        pixi_prefix.unicode_len(),
                        trimmed.unicode_len(),
                    );
                    proof {
                        assert(stripped@ =~= t.skip("pixi global install "@.len() as int));
                    }
                    match parse_stripped_line_with_pixi_global_install(stripped, &mut pixi_table) {
                        Ok(action) => {
                            let ghost p = action@;
                            let ghost av = ActionV::Pixi {
                                recipe: p.0,
                                recipe_and_version: p.1,
                            };
                            let wrapped = Action::PixiGlobalInstall(action);
                            proof {
                                assert(wrapped@ == av);
                                lemma_map_values_push(ordered_actions@, |a: Action| a@, wrapped);
                                lemma_pairs_of_push(logv, av);
                                assert(!pixi_map_of(logv).contains_key(p.0));
                                lemma_pairs_unique_push(pixi_pairs_of(logv), p);
                                assert(spec_parse_line(linesv[idx as int], idx + 1, logv) == Ok::<
                                    Seq<ActionV>,
                                    ParseErrorV,
                                >(logv.push(av)));
                                assert forall|i: int|
                                    0 <= i < logv.push(av).len() implies action_wf(
                                    #[trigger] logv.push(av)[i],
                                ) by {
                                    if i < logv.len() {
                                        assert(action_wf(logv[i]));
                                    }
                                }
                            }
                            ordered_actions.push(wrapped);
                        },
                        Err(kind) => {
                            let e = ParseError { line_number, line: line.clone(), kind };
                            proof {
                                assert(spec_parse_line(linesv[idx as int], idx + 1, logv) is Err);
                                assert(spec_parse_upto(linesv, idx + 1) == spec_parse_line(
                                    linesv[idx as int],
                                    idx + 1,
                                    logv,
                                ));
                                lemma_parse_upto_err(linesv, idx + 1, linesv.len() as int);
                            }
                            return Err(e);
                        },
                    }
                } else if starts_with(trimmed, git_prefix) {
                    let stripped = trimmed.substring_char(
                        git_prefix.unicode_len(),
                        trimmed.unicode_len(),
                    );
                    proof {
                        assert(stripped@ =~= t.skip("git config set --global "@.len() as int));
                    }
                    match parse_stripped_line_with_git_config_set_global(stripped, &mut git_table) {
                        Ok(action) => {
                            let ghost p = action@;
                            let ghost av = ActionV::Git { option_name: p.0, value: p.1 };
                            let wrapped = Action::GitConfigSetGlobal(action);
                            proof {
                                assert(wrapped@ == av);
                                lemma_map_values_push(ordered_actions@, |a: Action| a@, wrapped);
                                lemma_pairs_of_push(logv, av);
                                assert(!git_map_of(logv).contains_key(p.0));
                                lemma_pairs_unique_push(git_pairs_of(logv), p);
                                assert(spec_parse_line(linesv[idx as int], idx + 1, logv) == Ok::<
                                    Seq<ActionV>,
                                    ParseErrorV,
                                >(logv.push(av)));
                                assert forall|i: int|
                                    0 <= i < logv.push(av).len() implies action_wf(
                                    #[trigger] logv.push(av)[i],
                                ) by {
                                    if i < logv.len() {
                                        assert(action_wf(logv[i]));
                                    }
                                }
                            }
                            ordered_actions.push(wrapped);
                        },
                        Err(kind) => {
                            let e = ParseError { line_number, line: line.clone(), kind };
                            proof {
                                assert(spec_parse_line(linesv[idx as int], idx + 1, logv) is Err);
                                assert(spec_parse_upto(linesv, idx + 1) == spec_parse_line(
                                    linesv[idx as int],
                                    idx + 1,
                                    logv,
                                ));
                                lemma_parse_upto_err(linesv, idx + 1, linesv.len() as int);
                            }
                            return Err(e);
                        },
                    }
                } else {
                    proof {
                        assert(spec_parse_line(linesv[idx as int], idx + 1, logv) == Ok::<
                            Seq<ActionV>,
                            ParseErrorV,
                        >(logv));
                    }
                }
            }
        }
        idx = idx + 1;
    }
    let st = State { ordered_actions, cargo_table, pixi_table, git_table };
    Ok(st)
}

/// A singleton for an emitted command, empty for none.
pub open spec fn opt_to_seq(o: Option<Seq<Seq<char>>>) -> Seq<Seq<Seq<char>>> {
    match o {
        Some(c) => seq![c],
        None => Seq::empty(),
    }
}

/// The removal command for one current action, given the target state's log.
pub open spec fn spec_removal(a: ActionV, tgt: Seq<ActionV>) -> Option<Seq<Seq<char>>> {
    match a {
        ActionV::Cargo { crate_name, .. } => spec_crate_removal(cargo_map_of(tgt), crate_name),
        ActionV::Pixi { recipe, .. } => spec_recipe_removal(pixi_map_of(tgt), recipe),
        ActionV::Git { option_name, .. } => spec_git_removal(git_map_of(tgt), option_name),
    }
}

/// The install or update command for one target action, given the current
/// state's log.
pub open spec fn spec_install(a: ActionV, cur: Seq<ActionV>) -> Option<Seq<Seq<char>>> {
    match a {
        ActionV::Cargo { crate_name, command } => spec_crate_install_or_update(
            cargo_map_of(cur),
            crate_name,
            command,
        ),
        ActionV::Pixi { recipe, recipe_and_version } => spec_recipe_install_or_update(
            pixi_map_of(cur),
            recipe,
            recipe_and_version,
        ),
        ActionV::Git { option_name, value } => spec_git_set_or_update(
            git_map_of(cur),
            option_name,
            value,
        ),
    }
}

/// Phase 1: the removals over the current log, in reverse declaration order.
pub open spec fn spec_removals(cur: Seq<ActionV>, tgt: Seq<ActionV>) -> Seq<Seq<Seq<char>>>
    decreases cur.len(),
{
    if cur.len() == 0 {
        Seq::empty()
    } else {
        opt_to_seq(spec_removal(cur.last(), tgt)) + spec_removals(cur.drop_last(), tgt)
    }
}

/// Phase 2: the installs and updates over the target log, in declaration
/// order.
pub open spec fn spec_installs(tgt: Seq<ActionV>, cur: Seq<ActionV>) -> Seq<Seq<Seq<char>>>
    decreases tgt.len(),
{
    if tgt.len() == 0 {
        Seq::empty()
    } else {
        spec_installs(tgt.drop_last(), cur) + opt_to_seq(spec_install(tgt.last(), cur))
    }
}

/// The whole plan: removals, then installs.
pub open spec fn spec_compute_commands(cur: Seq<ActionV>, tgt: Seq<ActionV>) -> Seq<Seq<Seq<char>>> {
    spec_removals(cur, tgt) + spec_installs(tgt, cur)
}

/// Computes the ordered command sequence that transforms the current state
/// into the target state: exactly `spec_compute_commands` of the two logs.
pub fn compute_commands(current_state: &State, target_state: &State) -> (r: Vec<Command>)
    requires
        current_state.wf(),
        target_state.wf(),
    ensures
        r@.map_values(|c: Command| c@) == spec_compute_commands(current_state@, target_state@),
        forall|i: int| 0 <= i < r@.len() ==> (#[trigger] r@[i]).wf(),
{
    let ghost curv = current_state@;
    let ghost tgtv = target_state@;
    let mut out: Vec<Command> = Vec::new();
    let n1 = current_state.ordered_actions.len();
    let mut i: usize = n1;
    proof {
        assert(curv.take(n1 as int) =~= curv);
        assert(out@.map_values(|c: Command| c@) =~= Seq::<Seq<Seq<char>>>::empty());
        assert(Seq::<Seq<Seq<char>>>::empty() + spec_removals(curv, tgtv) =~= spec_removals(
            curv,
            tgtv,
        ));
    }
    while i > 0
        invariant
            0 <= i <= n1,
            n1 == current_state.ordered_actions@.len(),
            curv == current_state@,
            tgtv == target_state@,
            current_state.wf(),
            target_state.wf(),
            spec_removals(curv, tgtv) == out@.map_values(|c: Command| c@) + spec_removals(
                curv.take(i as int),
                tgtv,
            ),
            forall|k: int| 0 <= k < out@.len() ==> (#[trigger] out@[k]).wf(),
        decreases i,
    {
        i = i - 1;
        let action = &current_state.ordered_actions[i];
        proof {
            assert(curv[i as int] == action@);
        }
        let cmd_opt = match action {
            Action::CargoInstall(a) => compute_crate_removal_command(&target_state.cargo_table, a),
            Action::PixiGlobalInstall(a) => compute_recipe_removal_command(
                &target_state.pixi_table,
                a,
            ),
            Action::GitConfigSetGlobal(a) => compute_git_global_config_removal_command(
                &target_state.git_table,
                a,
            ),
        };
        proof {
            assert(opt_command_view(cmd_opt) == spec_removal(curv[i as int], tgtv));
            assert(curv.take(i + 1).drop_last() =~= curv.take(i as int));
            assert(curv.take(i + 1).last() == curv[i as int]);
            assert(spec_removals(curv.take(i + 1), tgtv) == opt_to_seq(
                spec_removal(curv[i as int], tgtv),
            ) + spec_removals(curv.take(i as int), tgtv));
        }
        match cmd_opt {
            Some(c) => {
                proof {
                    lemma_map_values_push(out@, |x: Command| x@, c);
                    assert(out@.map_values(|x: Command| x@).push(c@) + spec_removals(
                        curv.take(i as int),
                        tgtv,
                    ) =~= out@.map_values(|x: Command| x@) + (seq![c@] + spec_removals(
                        curv.take(i as int),
                        tgtv,
                    )));
                }
                out.push(c);
            },
            None => {
                proof {
                    assert(out@.map_values(|x: Command| x@) + (Seq::<Seq<Seq<char>>>::empty()
                        + spec_removals(curv.take(i as int), tgtv)) =~= out@.map_values(
                        |x: Command| x@,
                    ) + spec_removals(curv.take(i as int), tgtv));
                }
            },
        }
    }
    proof {
        assert(curv.take(0) =~= Seq::<ActionV>::empty());
        assert(out@.map_values(|c: Command| c@) + Seq::<Seq<Seq<char>>>::empty() =~= out@
            .map_values(|c: Command| c@));
        assert(out@.map_values(|c: Command| c@) == spec_removals(curv, tgtv));
        assert(tgtv.take(0) =~= Seq::<ActionV>::empty());
        assert(spec_removals(curv, tgtv) + Seq::<Seq<Seq<char>>>::empty() =~= spec_removals(
            curv,
            tgtv,
        ));
    }
    let n2 = target_state.ordered_actions.len();
    let mut j: usize = 0;
    while j < n2
        invariant
            0 <= j <= n2,
            n2 == target_state.ordered_actions@.len(),
            curv == current_state@,
            tgtv == target_state@,
            current_state.wf(),
            target_state.wf(),
            out@.map_values(|c: Command| c@) == spec_removals(curv, tgtv) + spec_installs(
                tgtv.take(j as int),
                curv,
            ),
            forall|k: int| 0 <= k < out@.len() ==> (#[trigger] out@[k]).wf(),
        decreases n2 - j,
    {
        let action = &target_state.ordered_actions[j];
        proof {
            assert(tgtv[j as int] == action@);
            if action@ is Cargo {
                assert(action_wf(tgtv[j as int]));
            }
        }
        let cmd_opt = match action {
            Action::CargoInstall(a) => compute_crate_install_or_update_command(
                &current_state.cargo_table,
                a,
            ),
            Action::PixiGlobalInstall(a) => compute_recipe_install_or_update_command(
                &current_state.pixi_table,
                a,
            ),
            Action::GitConfigSetGlobal(a) => compute_git_global_config_set_or_update_command(
                &current_state.git_table,
                a,
            ),
        };
        proof {
            assert(opt_command_view(cmd_opt) == spec_install(tgtv[j as int], curv));
            assert(tgtv.take(j + 1).drop_last() =~= tgtv.take(j as int));
            assert(tgtv.take(j + 1).last() == tgtv[j as int]);
            assert(spec_installs(tgtv.take(j + 1), curv) == spec_installs(
                tgtv.take(j as int),
                curv,
            ) + opt_to_seq(spec_install(tgtv[j as int], curv)));
        }
        match cmd_opt {
            Some(c) => {
                proof {
                    lemma_map_values_push(out@, |x: Command| x@, c);
                    assert(spec_removals(curv, tgtv) + (spec_installs(tgtv.take(j as int), curv)
                        + seq![c@]) =~= (spec_removals(curv, tgtv) + spec_installs(
                        tgtv.take(j as int),
                        curv,
                    )).push(c@));
                }
                out.push(c);
            },
            None => {
                proof {
                    assert(spec_installs(tgtv.take(j as int), curv)
                        + Seq::<Seq<Seq<char>>>::empty() =~= spec_installs(
                        tgtv.take(j as int),
                        curv,
                    ));
                }
            },
        }
        j = j + 1;
    }
    proof {
        assert(tgtv.take(n2 as int) =~= tgtv);
    }
    out
}

} // verus!

