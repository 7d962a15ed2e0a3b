//! Laws of the reconciliation engine, stated over the parsed-state model and
//! proved from the definitions the executable functions are verified against.

use vstd::prelude::*;

use crate::cargo_handling::{spec_crate_name_of, spec_crate_removal_command, spec_parse_cargo_line};
use crate::command_computing::{
    cargo_map_of, cargo_pairs_of, git_map_of, git_pairs_of, lemma_pairs_of_push, pixi_map_of,
    pixi_pairs_of, spec_compute_commands, spec_install, spec_installs, spec_parse_line,
    spec_parse_state, spec_parse_upto, spec_removal, spec_removals, unique_identities, ActionV,
};
use crate::common::has_cont_suffix;
use crate::errors::ParseErrorKindV;
use crate::git_handling::{spec_git_removal_command, spec_git_set_command, spec_parse_git_line};
use crate::pixi_handling::{
    spec_parse_pixi_line, spec_recipe_install_command, spec_recipe_removal_command,
};
use crate::strutil::{find_char, find_sub, is_prefix, spec_lines, spec_trim_start};
use crate::table::{
    lemma_pairs_map_contains, lemma_pairs_map_index, lemma_pairs_unique_push, pairs_map,
    pairs_unique,
};

verus! {

/// The domain an action belongs to.
pub enum Domain {
    Cargo,
    Pixi,
    Git,
}

pub open spec fn action_domain(a: ActionV) -> Domain {
    match a {
        ActionV::Cargo { .. } => Domain::Cargo,
        ActionV::Pixi { .. } => Domain::Pixi,
        ActionV::Git { .. } => Domain::Git,
    }
}

/// The identity an action declares.
pub open spec fn action_id(a: ActionV) -> Seq<char> {
    match a {
        ActionV::Cargo { crate_name, .. } => crate_name,
        ActionV::Pixi { recipe, .. } => recipe,
        ActionV::Git { option_name, .. } => option_name,
    }
}

/// Whether the log's table for the given domain holds the identity.
pub open spec fn log_has_identity(log: Seq<ActionV>, d: Domain, id: Seq<char>) -> bool {
    match d {
        Domain::Cargo => cargo_map_of(log).contains_key(id),
        Domain::Pixi => pixi_map_of(log).contains_key(id),
        Domain::Git => git_map_of(log).contains_key(id),
    }
}

/// Every action's identity is in its own log's domain map.
pub proof fn lemma_action_id_in_own_map(log: Seq<ActionV>, i: int)
    requires
        0 <= i < log.len(),
    ensures
        log_has_identity(log, action_domain(log[i]), action_id(log[i])),
{
    let a = log[i];
    match a {
        ActionV::Cargo { crate_name, command } => {
            log.lemma_filter_contains(|x: ActionV| x is Cargo, i);
            let f = log.filter(|x: ActionV| x is Cargo);
            let j = choose|j: int| 0 <= j < f.len() && f[j] == a;
            assert(cargo_pairs_of(log)[j] == (crate_name, command));
            lemma_pairs_map_contains(cargo_pairs_of(log), crate_name);
        },
        ActionV::Pixi { recipe, recipe_and_version } => {
            log.lemma_filter_contains(|x: ActionV| x is Pixi, i);
            let f = log.filter(|x: ActionV| x is Pixi);
            let j = choose|j: int| 0 <= j < f.len() && f[j] == a;
            assert(pixi_pairs_of(log)[j] == (recipe, recipe_and_version));
            lemma_pairs_map_contains(pixi_pairs_of(log), recipe);
        },
        ActionV::Git { option_name, value } => {
            log.lemma_filter_contains(|x: ActionV| x is Git, i);
            let f = log.filter(|x: ActionV| x is Git);
            let j = choose|j: int| 0 <= j < f.len() && f[j] == a;
            assert(git_pairs_of(log)[j] == (option_name, value));
            lemma_pairs_map_contains(git_pairs_of(log), option_name);
        },
    }
}

/// Under unique identities, each action's payload is what its own log's
/// domain map records for its identity.
pub proof fn lemma_action_payload_in_own_map(log: Seq<ActionV>, i: int)
    requires
        unique_identities(log),
        0 <= i < log.len(),
    ensures
        log[i] matches ActionV::Cargo { crate_name, command } ==> cargo_map_of(log).contains_key(
            crate_name,
        ) && cargo_map_of(log)[crate_name] == command,
        log[i] matches ActionV::Pixi { recipe, recipe_and_version } ==> pixi_map_of(
            log,
        ).contains_key(recipe) && pixi_map_of(log)[recipe] == recipe_and_version,
        log[i] matches ActionV::Git { option_name, value } ==> git_map_of(log).contains_key(
            option_name,
        ) && git_map_of(log)[option_name] == value,
{
    let a = log[i];
    match a {
        ActionV::Cargo { crate_name, command } => {
            log.lemma_filter_contains(|x: ActionV| x is Cargo, i);
            let f = log.filter(|x: ActionV| x is Cargo);
            let j = choose|j: int| 0 <= j < f.len() && f[j] == a;
            assert(cargo_pairs_of(log)[j] == (crate_name, command));
            lemma_pairs_map_index(cargo_pairs_of(log), j);
        },
        ActionV::Pixi { recipe, recipe_and_version } => {
            log.lemma_filter_contains(|x: ActionV| x is Pixi, i);
            let f = log.filter(|x: ActionV| x is Pixi);
            let j = choose|j: int| 0 <= j < f.len() && f[j] == a;
            assert(pixi_pairs_of(log)[j] == (recipe, recipe_and_version));
            lemma_pairs_map_index(pixi_pairs_of(log), j);
        },
        ActionV::Git { option_name, value } => {
            log.lemma_filter_contains(|x: ActionV| x is Git, i);
            let f = log.filter(|x: ActionV| x is Git);
            let j = choose|j: int| 0 <= j < f.len() && f[j] == a;
            assert(git_pairs_of(log)[j] == (option_name, value));
            lemma_pairs_map_index(git_pairs_of(log), j);
        },
    }
}

proof fn lemma_removals_self_empty(s: Seq<ActionV>, k: int)
    requires
        0 <= k <= s.len(),
    ensures
        spec_removals(s.take(k), s) == Seq::<Seq<Seq<char>>>::empty(),
    decreases k,
{
    if k > 0 {
        lemma_removals_self_empty(s, k - 1);
        assert(s.take(k).drop_last() =~= s.take(k - 1));
        assert(s.take(k).last() == s[k - 1]);
        lemma_action_id_in_own_map(s, k - 1);
        assert(spec_removal(s[k - 1], s) is None);
        assert(Seq::<Seq<Seq<char>>>::empty() + Seq::<Seq<Seq<char>>>::empty()
            =~= Seq::<Seq<Seq<char>>>::empty());
    } else {
        assert(s.take(0) =~= Seq::<ActionV>::empty());
    }
}

proof fn lemma_installs_self_empty(s: Seq<ActionV>, k: int)
    requires
        unique_identities(s),
        0 <= k <= s.len(),
    ensures
        spec_installs(s.take(k), s) == Seq::<Seq<Seq<char>>>::empty(),
    decreases k,
{
    if k > 0 {
        lemma_installs_self_empty(s, k - 1);
        assert(s.take(k).drop_last() =~= s.take(k - 1));
        assert(s.take(k).last() == s[k - 1]);
        lemma_action_payload_in_own_map(s, k - 1);
        assert(spec_install(s[k - 1], s) is None);
        assert(Seq::<Seq<Seq<char>>>::empty() + Seq::<Seq<Seq<char>>>::empty()
            =~= Seq::<Seq<Seq<char>>>::empty());
    } else {
        assert(s.take(0) =~= Seq::<ActionV>::empty());
    }
}

/// Idempotence: diffing any state with unique identities against itself
/// yields no command at all.
pub proof fn lemma_compute_commands_idempotent(s: Seq<ActionV>)
    requires
        unique_identities(s),
    ensures
        spec_compute_commands(s, s) == Seq::<Seq<Seq<char>>>::empty(),
{
    lemma_removals_self_empty(s, s.len() as int);
    lemma_installs_self_empty(s, s.len() as int);
    assert(s.take(s.len() as int) =~= s);
    assert(Seq::<Seq<Seq<char>>>::empty() + Seq::<Seq<Seq<char>>>::empty()
        =~= Seq::<Seq<Seq<char>>>::empty());
}

/// The identities for which the diff emits a removal.
pub open spec fn removed_identities(cur: Seq<ActionV>, tgt: Seq<ActionV>) -> Set<
    (Domain, Seq<char>),
> {
    Set::new(
        |p: (Domain, Seq<char>)|
            exists|i: int|
                0 <= i < cur.len() && action_domain(#[trigger] cur[i]) == p.0 && action_id(cur[i])
                    == p.1 && spec_removal(cur[i], tgt) is Some,
    )
}

/// The identities for which the diff emits an install or update.
pub open spec fn installed_identities(tgt: Seq<ActionV>, cur: Seq<ActionV>) -> Set<
    (Domain, Seq<char>),
> {
    Set::new(
        |p: (Domain, Seq<char>)|
            exists|i: int|
                0 <= i < tgt.len() && action_domain(#[trigger] tgt[i]) == p.0 && action_id(tgt[i])
                    == p.1 && spec_install(tgt[i], cur) is Some,
    )
}

/// Round-trip safety: no identity is both removed and installed or updated
/// by one diff. A removal is emitted only for an identity absent from the
/// target; an install or update only for one declared in the target.
pub proof fn lemma_removed_and_installed_disjoint(cur: Seq<ActionV>, tgt: Seq<ActionV>)
    ensures
        forall|p: (Domain, Seq<char>)|
            removed_identities(cur, tgt).contains(p) ==> !installed_identities(
                tgt,
                cur,
            ).contains(p),
{
    assert forall|p: (Domain, Seq<char>)|
        removed_identities(cur, tgt).contains(p) implies !installed_identities(
        tgt,
        cur,
    ).contains(p) by {
        let i = choose|i: int|
            0 <= i < cur.len() && action_domain(#[trigger] cur[i]) == p.0 && action_id(cur[i])
                == p.1 && spec_removal(cur[i], tgt) is Some;
        assert(!log_has_identity(tgt, p.0, p.1));
        if installed_identities(tgt, cur).contains(p) {
            let j = choose|j: int|
                0 <= j < tgt.len() && action_domain(#[trigger] tgt[j]) == p.0 && action_id(tgt[j])
                    == p.1 && spec_install(tgt[j], cur) is Some;
            lemma_action_id_in_own_map(tgt, j);
        }
    }
}

/// The removal command an action's domain emits for it.
pub open spec fn removal_command_of(a: ActionV) -> Seq<Seq<char>> {
    match a {
        ActionV::Cargo { crate_name, .. } => spec_crate_removal_command(crate_name),
        ActionV::Pixi { recipe, .. } => spec_recipe_removal_command(recipe),
        ActionV::Git { option_name, .. } => spec_git_removal_command(option_name),
    }
}

/// The fresh-install command an action's domain emits for it.
pub open spec fn fresh_install_command_of(a: ActionV) -> Seq<Seq<char>> {
    match a {
        ActionV::Cargo { command, .. } => command,
        ActionV::Pixi { recipe_and_version, .. } => spec_recipe_install_command(
            recipe_and_version,
        ),
        ActionV::Git { option_name, value } => spec_git_set_command(option_name, value),
    }
}

/// Reverse-order removals: when every current action's identity is absent
/// from the target, the removal phase is exactly the removal command of each
/// current action, last declared first.
pub proof fn lemma_removals_in_reverse_order(cur: Seq<ActionV>, tgt: Seq<ActionV>)
    requires
        forall|i: int|
            0 <= i < cur.len() ==> !log_has_identity(
                tgt,
                action_domain(#[trigger] cur[i]),
                action_id(cur[i]),
            ),
    ensures
        spec_removals(cur, tgt) == cur.reverse().map_values(|a: ActionV| removal_command_of(a)),
    decreases cur.len(),
{
    let f = |a: ActionV| removal_command_of(a);
    if cur.len() > 0 {
        assert forall|i: int| 0 <= i < cur.drop_last().len() implies !log_has_identity(
            tgt,
            action_domain(#[trigger] cur.drop_last()[i]),
            action_id(cur.drop_last()[i]),
        ) by {
            assert(cur.drop_last()[i] == cur[i]);
        }
        lemma_removals_in_reverse_order(cur.drop_last(), tgt);
        assert(spec_removal(cur.last(), tgt) == Some(removal_command_of(cur.last())));
        assert(cur.reverse().map_values(f) =~= seq![f(cur.last())] + cur.drop_last().reverse()
            .map_values(f)) by {
            assert forall|i: int| 0 <= i < cur.len() implies cur.reverse().map_values(f)[i] == (
            seq![f(cur.last())] + cur.drop_last().reverse().map_values(f))[i] by {
                if i > 0 {
                    assert(cur.drop_last().reverse()[i - 1] == cur[cur.len() - 1 - i]);
                }
            }
        }
    } else {
        assert(cur.reverse().map_values(f) =~= Seq::<Seq<Seq<char>>>::empty());
    }
}

/// Forward-order installs: when every target action's identity is absent
/// from the current state, the install phase is exactly the fresh-install
/// command of each target action, in declaration order.
pub proof fn lemma_installs_in_declaration_order(tgt: Seq<ActionV>, cur: Seq<ActionV>)
    requires
        forall|i: int|
            0 <= i < tgt.len() ==> !log_has_identity(
                cur,
                action_domain(#[trigger] tgt[i]),
                action_id(tgt[i]),
            ),
    ensures
        spec_installs(tgt, cur) == tgt.map_values(|a: ActionV| fresh_install_command_of(a)),
    decreases tgt.len(),
{
    let f = |a: ActionV| fresh_install_command_of(a);
    if tgt.len() > 0 {
        assert forall|i: int| 0 <= i < tgt.drop_last().len() implies !log_has_identity(
            cur,
            action_domain(#[trigger] tgt.drop_last()[i]),
            action_id(tgt.drop_last()[i]),
        ) by {
            assert(tgt.drop_last()[i] == tgt[i]);
        }
        lemma_installs_in_declaration_order(tgt.drop_last(), cur);
        assert(spec_install(tgt.last(), cur) == Some(fresh_install_command_of(tgt.last())));
        assert(tgt.map_values(f) =~= tgt.drop_last().map_values(f) + seq![f(tgt.last())]);
    } else {
        assert(tgt.map_values(f) =~= Seq::<Seq<Seq<char>>>::empty());
    }
}

/// Update is never a fresh install, in the one domain whose update form
/// differs: a crate present in the current state with a differing command is
/// re-installed with `--force` appended, never with the plain target command.
/// (The recipe and config domains use one command form for both.)
pub proof fn lemma_update_is_not_fresh_install(cur: Seq<ActionV>, a: ActionV)
    requires
        a is Cargo,
        cargo_map_of(cur).contains_key(a->Cargo_crate_name),
        cargo_map_of(cur)[a->Cargo_crate_name] != a->Cargo_command,
    ensures
        spec_install(a, cur) == Some(a->Cargo_command.push("--force"@)),
        spec_install(a, cur) != Some(fresh_install_command_of(a)),
{
    assert(a->Cargo_command.push("--force"@).len() == a->Cargo_command.len() + 1);
}

proof fn lemma_parse_line_unique(line: Seq<char>, ln: int, log: Seq<ActionV>)
    requires
        unique_identities(log),
        spec_parse_line(line, ln, log) is Ok,
    ensures
        unique_identities(spec_parse_line(line, ln, log)->Ok_0),
{
    let t = spec_trim_start(line);
    if t.len() > 0 && t[0] == '#' {
    } else if find_sub(t, "cargo install "@) is Some {
        match spec_parse_cargo_line(t, cargo_map_of(log)) {
            Ok(p) => {
                let av = ActionV::Cargo { crate_name: p.0, command: p.1 };
                lemma_pairs_of_push(log, av);
                lemma_pairs_unique_push(cargo_pairs_of(log), p);
            },
            Err(_) => {},
        }
    } else if is_prefix(t, "pixi global install "@) {
        match spec_parse_pixi_line(t.skip("pixi global install "@.len() as int), pixi_map_of(log)) {
            Ok(p) => {
                let av = ActionV::Pixi { recipe: p.0, recipe_and_version: p.1 };
                lemma_pairs_of_push(log, av);
                lemma_pairs_unique_push(pixi_pairs_of(log), p);
            },
            Err(_) => {},
        }
    } else if is_prefix(t, "git config set --global "@) {
        match spec_parse_git_line(
            t.skip("git config set --global "@.len() as int),
            git_map_of(log),
        ) {
            Ok(p) => {
                let av = ActionV::Git { option_name: p.0, value: p.1 };
                lemma_pairs_of_push(log, av);
                lemma_pairs_unique_push(git_pairs_of(log), p);
            },
            Err(_) => {},
        }
    } else {
    }
}

proof fn lemma_parse_upto_unique(lines: Seq<Seq<char>>, k: int)
    requires
        spec_parse_upto(lines, k) is Ok,
    ensures
        unique_identities(spec_parse_upto(lines, k)->Ok_0),
    decreases k,
{
    reveal(Seq::filter);
    if k <= 0 {
        assert(cargo_pairs_of(Seq::<ActionV>::empty()) =~= Seq::<(Seq<char>, Seq<Seq<char>>)>::empty());
        assert(pixi_pairs_of(Seq::<ActionV>::empty()) =~= Seq::<(Seq<char>, Seq<char>)>::empty());
        assert(git_pairs_of(Seq::<ActionV>::empty()) =~= Seq::<(Seq<char>, Seq<char>)>::empty());
    } else {
        lemma_parse_upto_unique(lines, k - 1);
        lemma_parse_line_unique(lines[k - 1], k, spec_parse_upto(lines, k - 1)->Ok_0);
    }
}

/// Duplicate detection: a text that parses successfully declares each
/// identity at most once within each domain.
pub proof fn lemma_parse_ok_has_unique_identities(text: Seq<char>)
    ensures
        spec_parse_state(text) matches Ok(log) ==> unique_identities(log),
{
    if spec_parse_state(text) is Ok {
        lemma_parse_upto_unique(spec_lines(text), spec_lines(text).len() as int);
    }
}

/// Duplicate detection, package domain: a well-formed line that re-declares
/// a crate already recorded fails with the duplicate error carrying the
/// command recorded for the first declaration.
pub proof fn lemma_duplicate_crate_rejected(line: Seq<char>, m: Map<Seq<char>, Seq<Seq<char>>>)
    requires
        has_cont_suffix(line),
        spec_crate_name_of(line.take(line.len() - 3)).len() > 0,
        m.contains_key(spec_crate_name_of(line.take(line.len() - 3))),
    ensures
        spec_parse_cargo_line(line, m) == Err::<(Seq<char>, Seq<Seq<char>>), ParseErrorKindV>(
            ParseErrorKindV::DuplicateCrate {
                crate_name: spec_crate_name_of(line.take(line.len() - 3)),
                previous_command: m[spec_crate_name_of(line.take(line.len() - 3))],
            },
        ),
{
}

/// Duplicate detection, recipe domain.
pub proof fn lemma_duplicate_recipe_rejected(stripped: Seq<char>, m: Map<Seq<char>, Seq<char>>)
    requires
        has_cont_suffix(stripped),
        stripped.len() > 3,
        find_char(stripped.take(stripped.len() - 3), '=') matches Some(i) && stripped.take(
            stripped.len() - 3,
        ).take(i).len() > 0 && m.contains_key(stripped.take(stripped.len() - 3).take(i)),
    ensures
        spec_parse_pixi_line(stripped, m) matches Err(k) && k matches
            ParseErrorKindV::DuplicateRecipe { recipe, previous } && m.contains_key(recipe)
            && previous == m[recipe],
{
}

/// Duplicate detection, config domain.
pub proof fn lemma_duplicate_option_rejected(stripped: Seq<char>, m: Map<Seq<char>, Seq<char>>)
    requires
        spec_parse_git_line(stripped, m) matches Err(k) && k is DuplicateOption,
    ensures
        spec_parse_git_line(stripped, m) matches Err(k) && k matches
            ParseErrorKindV::DuplicateOption { option_name, previous_value } && m.contains_key(
            option_name,
        ) && previous_value == m[option_name],
{
}

} // verus!
