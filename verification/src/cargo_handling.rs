//! The package-manager domain: lines that contain the marker
//! `cargo install ` and end with the continuation suffix `; \`. The whole
//! suffix-stripped line is the install command; the crate name is the first
//! token after the marker.

use vstd::prelude::*;

use crate::command::{opt_command_view, Command};
use crate::common::{has_cont_suffix, strip_cont_suffix};
use crate::errors::{ParseErrorKind, ParseErrorKindV};
use crate::strutil::{
    find_sub, find_substring, first_token, first_token_str, lemma_find_char, lemma_find_sub,
    lemma_left_trimmed_head, match_at, spec_trim_start, spec_ws, split_char, str_eq,
};
use crate::table::{lemma_pairs_map_take, pairs_map};

verus! {

/// A declared crate install: the crate name and the verbatim install command.
#[derive(Debug)]
pub struct CargoInstall {
    pub crate_name: String,
    pub command: Command,
}

impl View for CargoInstall {
    type V = (Seq<char>, Seq<Seq<char>>);

    open spec fn view(&self) -> (Seq<char>, Seq<Seq<char>>) {
        (self.crate_name@, self.command@)
    }
}

impl Clone for CargoInstall {
    fn clone(&self) -> (r: Self)
        ensures
            r@ == self@,
    {
        CargoInstall { crate_name: self.crate_name.clone(), command: self.command.clone() }
    }
}

/// The identity/payload pairs a crate table holds.
pub open spec fn cargo_views(t: Seq<CargoInstall>) -> Seq<(Seq<char>, Seq<Seq<char>>)> {
    t.map_values(|e: CargoInstall| e@)
}

/// The command recorded for `crate_name`, if the table holds the identity.
fn cargo_lookup(table: &Vec<CargoInstall>, crate_name: &str) -> (r: Option<Command>)
    ensures
        match r {
            Some(prev) => pairs_map(cargo_views(table@)).contains_key(crate_name@) && prev@
                == pairs_map(cargo_views(table@))[crate_name@],
            None => !pairs_map(cargo_views(table@)).contains_key(crate_name@),
        },
{
    let ghost s = cargo_views(table@);
    let mut i: usize = table.len();
    while i > 0
        invariant
            0 <= i <= table@.len(),
            s == cargo_views(table@),
            s.len() == table@.len(),
            forall|j: int| i <= j < s.len() ==> s[j].0 != crate_name@,
        decreases i,
    {
        i = i - 1;
        if str_eq(table[i].crate_name.as_str(), crate_name) {
            proof {
                assert(s[i as int] == table@[i as int]@);
                assert(s[i as int].0 == crate_name@);
                lemma_pairs_map_take(s, crate_name@, i + 1);
                assert(s.take(i + 1).drop_last() =~= s.take(i as int));
                assert(s.take(i + 1).last() == s[i as int]);
            }
            return Some(table[i].command.clone());
        }
    }
    proof {
        lemma_pairs_map_take(s, crate_name@, 0);
        assert(s.take(0) =~= Seq::<(Seq<char>, Seq<Seq<char>>)>::empty());
    }
    None
}

/// The crate name on a suffix-stripped line: the first space-delimited token
/// after the marker, or empty when the marker is absent.
pub open spec fn spec_crate_name_of(cs: Seq<char>) -> Seq<char> {
    match find_sub(cs, "cargo install "@) {
        Some(i) => first_token(cs.skip(i + "cargo install "@.len())),
        None => Seq::empty(),
    }
}

/// What parsing one left-trimmed, marker-bearing line yields, given the map
/// of the identities seen so far: the crate name and the verbatim command
/// tokens, or the exact error.
pub open spec fn spec_parse_cargo_line(
    line: Seq<char>,
    m: Map<Seq<char>, Seq<Seq<char>>>,
) -> Result<(Seq<char>, Seq<Seq<char>>), ParseErrorKindV> {
    if !has_cont_suffix(line) {
        Err(ParseErrorKindV::CargoMissingSuffix)
    } else {
        let cs = line.take(line.len() - 3);
        let name = spec_crate_name_of(cs);
        if name.len() == 0 {
            Err(ParseErrorKindV::EmptyCrateName)
        } else if m.contains_key(name) {
            Err(ParseErrorKindV::DuplicateCrate { crate_name: name, previous_command: m[name] })
        } else {
            Ok((name, split_char(cs, ' ')))
        }
    }
}

/// An occurrence of the marker in a suffixed line cannot overlap the suffix:
/// no character of `; \` can stand where the marker's last two characters do.
proof fn lemma_marker_in_stripped(line: Seq<char>)
    requires
        has_cont_suffix(line),
        find_sub(line, "cargo install "@) is Some,
    ensures
        find_sub(line.take(line.len() - 3), "cargo install "@) is Some,
{
    reveal_strlit("cargo install ");
    reveal_strlit("; \\");
    let marker = "cargo install "@;
    let n = line.len() as int;
    let cs = line.take(n - 3);
    lemma_find_sub(line, marker);
    let p = find_sub(line, marker)->Some_0;
    assert(match_at(line, marker, p));
    assert(line[p + 12] == marker[12] && line[p + 13] == marker[13]) by {
        assert(line.subrange(p, p + 14)[12] == line[p + 12]);
        assert(line.subrange(p, p + 14)[13] == line[p + 13]);
    }
    assert(line.subrange(n - 3, n) == "; \\"@);
    assert(line[n - 3] == ';' && line[n - 2] == ' ' && line[n - 1] == '\\') by {
        assert(line.subrange(n - 3, n)[0] == line[n - 3]);
        assert(line.subrange(n - 3, n)[1] == line[n - 2]);
        assert(line.subrange(n - 3, n)[2] == line[n - 1]);
    }
    if p + 14 > n - 3 {
        if p + 13 == n - 3 {
            assert(line[p + 13] == ';');
        } else if p + 13 == n - 2 {
            assert(line[p + 12] == ';');
        } else {
            assert(p + 13 == n - 1);
            assert(line[p + 13] == '\\');
        }
        assert(false);
    }
    assert(match_at(cs, marker, p)) by {
        assert(cs.subrange(p, p + 14) =~= line.subrange(p, p + 14));
    }
    if find_sub(cs, marker) is None {
        lemma_find_sub(cs, marker);
        assert(!match_at(cs, marker, p));
    }
}

/// Parses one left-trimmed line known to contain the marker, records the
/// action in the table, and returns it; fails exactly as
/// `spec_parse_cargo_line` says.
pub fn parse_line_with_cargo_install(
    left_trimmed_line: &str,
    cargo_table: &mut Vec<CargoInstall>,
) -> (r: Result<CargoInstall, ParseErrorKind>)
    requires
        spec_trim_start(left_trimmed_line@) == left_trimmed_line@,
        find_sub(left_trimmed_line@, "cargo install "@) is Some,
    ensures
        match spec_parse_cargo_line(
            left_trimmed_line@,
            pairs_map(cargo_views(old(cargo_table)@)),
        ) {
            Ok(p) => r matches Ok(a) && a@ == p && a.command.wf() && cargo_views(
                final(cargo_table)@,
            ) == cargo_views(old(cargo_table)@).push(p),
            Err(k) => r matches Err(e) && e@ == k && final(cargo_table)@ == old(cargo_table)@,
        },
{
    match strip_cont_suffix(left_trimmed_line) {
        None => Err(ParseErrorKind::CargoMissingSuffix),
        Some(command_str) => {
            proof {
                lemma_marker_in_stripped(left_trimmed_line@);
            }
            let marker = "cargo install ";
            match find_substring(command_str, marker) {
                None => vstd::pervasive::unreached(),
                Some(pos) => {
                    proof {
                        lemma_find_sub(command_str@, marker@);
                        reveal_strlit("cargo install ");
                    }
                    let clen = command_str.unicode_len();
                    let mlen = marker.unicode_len();
                    let rest = command_str.substring_char(pos + mlen, clen);
                    proof {
                        assert(rest@ =~= command_str@.skip(pos + marker@.len()));
                    }
                    let name_str = first_token_str(rest);
                    if name_str.is_empty() {
                        Err(ParseErrorKind::EmptyCrateName)
                    } else {
                        match cargo_lookup(cargo_table, name_str) {
                            Some(prev) => Err(ParseErrorKind::DuplicateCrate {
                                crate_name: name_str.to_owned(),
                                previous_command: prev,
                            }),
                            None => {
                                proof {
                                    reveal_strlit("cargo install ");
                                    reveal_strlit("; \\");
                                    assert(command_str@.len() >= 14);
                                    lemma_left_trimmed_head(left_trimmed_line@);
                                    assert(command_str@ == left_trimmed_line@.take(
                                        left_trimmed_line@.len() - 3,
                                    ));
                                    assert(command_str@[0] == left_trimmed_line@[0]);
                                    assert(command_str@[0] != ' ') by {
                                        assert(spec_ws(' '));
                                    }
                                    lemma_find_char(command_str@, ' ');
                                }
                                let command = match Command::from_str(command_str) {
                                    Ok(c) => c,
                                    Err(_) => vstd::pervasive::unreached(),
                                };
                                let action = CargoInstall {
                                    crate_name: name_str.to_owned(),
                                    command,
                                };
                                let recorded = action.clone();
                                proof {
                                    crate::strutil::lemma_map_values_push(
                                        cargo_table@,
                                        |e: CargoInstall| e@,
                                        recorded,
                                    );
                                }
                                cargo_table.push(recorded);
                                Ok(action)
                            },
                        }
                    }
                },
            }
        },
    }
}

pub open spec fn spec_crate_removal_command(crate_name: Seq<char>) -> Seq<Seq<char>> {
    seq!["cargo"@, "uninstall"@, crate_name]
}

/// Removal policy: uninstall exactly the crates absent from the target map.
pub open spec fn spec_crate_removal(
    m: Map<Seq<char>, Seq<Seq<char>>>,
    crate_name: Seq<char>,
) -> Option<Seq<Seq<char>>> {
    if m.contains_key(crate_name) {
        None
    } else {
        Some(spec_crate_removal_command(crate_name))
    }
}

/// Install policy: the verbatim target command for a fresh install, nothing
/// for an identical command, and the target command with `--force` appended
/// for an update.
pub open spec fn spec_crate_install_or_update(
    m: Map<Seq<char>, Seq<Seq<char>>>,
    crate_name: Seq<char>,
    command: Seq<Seq<char>>,
) -> Option<Seq<Seq<char>>> {
    if !m.contains_key(crate_name) {
        Some(command)
    } else if m[crate_name] == command {
        None
    } else {
        Some(command.push("--force"@))
    }
}

pub fn compute_crate_removal_command(
    target_state_cargo_table: &Vec<CargoInstall>,
    current_state_action: &CargoInstall,
) -> (r: Option<Command>)
    ensures
        opt_command_view(r) == spec_crate_removal(
            pairs_map(cargo_views(target_state_cargo_table@)),
            current_state_action@.0,
        ),
        r matches Some(c) ==> c.wf(),
{
    match cargo_lookup(target_state_cargo_table, current_state_action.crate_name.as_str()) {
        Some(_) => None,
        None => {
            proof {
                reveal_strlit("cargo");
            }
            let mut tokens: Vec<String> = Vec::new();
            tokens.push("cargo".to_owned());
            tokens.push("uninstall".to_owned());
            tokens.push(current_state_action.crate_name.clone());
            let c = Command::new(tokens);
            proof {
                assert(c@ =~= spec_crate_removal_command(current_state_action@.0));
            }
            Some(c)
        },
    }
}

pub fn compute_crate_install_or_update_command(
    current_state_cargo_table: &Vec<CargoInstall>,
    target_state_action: &CargoInstall,
) -> (r: Option<Command>)
    requires
        target_state_action.command.wf(),
    ensures
        opt_command_view(r) == spec_crate_install_or_update(
            pairs_map(cargo_views(current_state_cargo_table@)),
            target_state_action@.0,
            target_state_action@.1,
        ),
        r matches Some(c) ==> c.wf(),
{
    match cargo_lookup(current_state_cargo_table, target_state_action.crate_name.as_str()) {
        None => Some(target_state_action.command.clone()),
        Some(current_command) => {
            if current_command.same_tokens(&target_state_action.command) {
                None
            } else {
                let forced = target_state_action.command.concat_args(vec!["--force".to_owned()]);
                proof {
                    assert(forced@ =~= target_state_action@.1.push("--force"@));
                }
                Some(forced)
            }
        },
    }
}

} // verus!
