//! The global-config domain: lines of the form
//! `git config set --global <option> <value>; \`, where a single-quoted
//! value has its quotes stripped.

use vstd::prelude::*;

use crate::command::{opt_command_view, Command};
use crate::common::{has_cont_suffix, strip_cont_suffix};
use crate::errors::{ParseErrorKind, ParseErrorKindV};
use crate::strutil::{find_char, find_char_str, lemma_find_char, str_eq};
use crate::table::{lemma_pairs_map_take, pairs_map};

verus! {

/// A declared global config setting: the option name and its value.
#[derive(Debug)]
pub struct GitConfigSetGlobal {
    pub option_name: String,
    pub value: String,
}

impl View for GitConfigSetGlobal {
    type V = (Seq<char>, Seq<char>);

    open spec fn view(&self) -> (Seq<char>, Seq<char>) {
        (self.option_name@, self.value@)
    }
}

impl Clone for GitConfigSetGlobal {
    fn clone(&self) -> (r: Self)
        ensures
            r@ == self@,
    {
        GitConfigSetGlobal { option_name: self.option_name.clone(), value: self.value.clone() }
    }
}

/// The identity/payload pairs a config table holds.
pub open spec fn git_views(t: Seq<GitConfigSetGlobal>) -> Seq<(Seq<char>, Seq<char>)> {
    t.map_values(|e: GitConfigSetGlobal| e@)
}

/// The value recorded for `option_name`, if the table holds the identity.
fn git_lookup(table: &Vec<GitConfigSetGlobal>, option_name: &str) -> (r: Option<String>)
    ensures
        match r {
            Some(prev) => pairs_map(git_views(table@)).contains_key(option_name@) && prev@
                == pairs_map(git_views(table@))[option_name@],
            None => !pairs_map(git_views(table@)).contains_key(option_name@),
        },
{
    let ghost s = git_views(table@);
    let mut i: usize = table.len();
    while i > 0
        invariant
            0 <= i <= table@.len(),
            s == git_views(table@),
            s.len() == table@.len(),
            forall|j: int| i <= j < s.len() ==> s[j].0 != option_name@,
        decreases i,
    {
        i = i - 1;
        if str_eq(table[i].option_name.as_str(), option_name) {
            proof {
                assert(s[i as int] == table@[i as int]@);
                assert(s[i as int].0 == option_name@);
                lemma_pairs_map_take(s, option_name@, i + 1);
                assert(s.take(i + 1).drop_last() =~= s.take(i as int));
                assert(s.take(i + 1).last() == s[i as int]);
            }
            return Some(table[i].value.clone());
        }
    }
    proof {
        lemma_pairs_map_take(s, option_name@, 0);
        assert(s.take(0) =~= Seq::<(Seq<char>, Seq<char>)>::empty());
    }
    None
}

/// The value once an enclosing pair of apostrophes is stripped: the raw text,
/// the unquoted text, or the unterminated-quote error.
pub open spec fn spec_unquote_value(raw: Seq<char>) -> Result<Seq<char>, ParseErrorKindV> {
    if raw.len() >= 1 && raw[0] == '\'' {
        if raw.len() >= 2 && raw[raw.len() - 1] == '\'' {
            Ok(raw.subrange(1, raw.len() - 1))
        } else {
            Err(ParseErrorKindV::MissingEndingApostrophe { value: raw })
        }
    } else {
        Ok(raw)
    }
}

/// What parsing one suffix-stripped config line yields, given the map of the
/// identities seen so far: the option and its unquoted value, or the exact
/// error.
pub open spec fn spec_parse_git_line(stripped: Seq<char>, m: Map<Seq<char>, Seq<char>>) -> Result<
    (Seq<char>, Seq<char>),
    ParseErrorKindV,
> {
    if !has_cont_suffix(stripped) {
        Err(ParseErrorKindV::GitMissingSuffix)
    } else {
        let ov = stripped.take(stripped.len() - 3);
        match find_char(ov, ' ') {
            None => Err(ParseErrorKindV::GitMissingValue { option_and_value: ov }),
            Some(i) => {
                let option_name = ov.take(i);
                let raw_value = ov.skip(i + 1);
                if option_name.len() == 0 {
                    Err(ParseErrorKindV::EmptyOption)
                } else {
                    match spec_unquote_value(raw_value) {
                        Err(k) => Err(k),
                        Ok(value) => {
                            if value.len() == 0 {
                                Err(ParseErrorKindV::EmptyValue)
                            } else if m.contains_key(option_name) {
                                Err(ParseErrorKindV::DuplicateOption {
                                    option_name,
                                    previous_value: m[option_name],
                                })
                            } else {
                                Ok((option_name, value))
                            }
                        },
                    }
                }
            },
        }
    }
}

/// Parses one left-trimmed line whose `git config set --global ` prefix has
/// been stripped, records the action in the table, and returns it; fails
/// exactly as `spec_parse_git_line` says.
pub fn parse_stripped_line_with_git_config_set_global(
    stripped_line: &str,
    git_table: &mut Vec<GitConfigSetGlobal>,
) -> (r: Result<GitConfigSetGlobal, ParseErrorKind>)
    ensures
        match spec_parse_git_line(stripped_line@, pairs_map(git_views(old(git_table)@))) {
            Ok(p) => r matches Ok(a) && a@ == p && git_views(final(git_table)@) == git_views(
                old(git_table)@,
            ).push(p),
            Err(k) => r matches Err(e) && e@ == k && final(git_table)@ == old(git_table)@,
        },
{
    match strip_cont_suffix(stripped_line) {
        None => Err(ParseErrorKind::GitMissingSuffix),
        Some(ov_str) => {
            match find_char_str(ov_str, ' ') {
                None => Err(ParseErrorKind::GitMissingValue {
                    option_and_value: ov_str.to_owned(),
                }),
                Some(i) => {
                    proof {
                        lemma_find_char(ov_str@, ' ');
                    }
                    let n = ov_str.unicode_len();
                    let option_str = ov_str.substring_char(0, i);
                    let raw_value = ov_str.substring_char(i + 1, n);
                    proof {
                        assert(option_str@ =~= ov_str@.take(i as int));
                        assert(raw_value@ =~= ov_str@.skip(i + 1));
                    }
                    if option_str.is_empty() {
                        Err(ParseErrorKind::EmptyOption)
                    } else {
                        let quoted = raw_value.unicode_len() >= 1 && raw_value.get_char(0) == '\'';
                        let value_str = if quoted {
                            let m = raw_value.unicode_len();
                            if m >= 2 && raw_value.get_char(m - 1) == '\'' {
                                let v = raw_value.substring_char(1, m - 1);
                                proof {
                                    assert(v@ =~= raw_value@.subrange(1, raw_value@.len() - 1));
                                }
                                v
                            } else {
                                return Err(ParseErrorKind::MissingEndingApostrophe {
                                    value: raw_value.to_owned(),
                                });
                            }
                        } else {
                            raw_value
                        };
                        if value_str.is_empty() {
                            Err(ParseErrorKind::EmptyValue)
                        } else {
                            match git_lookup(git_table, option_str) {
                                Some(prev) => Err(ParseErrorKind::DuplicateOption {
                                    option_name: option_str.to_owned(),
                                    previous_value: prev,
                                }),
                                None => {
                                    let action = GitConfigSetGlobal {
                                        option_name: option_str.to_owned(),
                                        value: value_str.to_owned(),
                                    };
                                    let recorded = action.clone();
                                    proof {
                                        crate::strutil::lemma_map_values_push(
                                            git_table@,
                                            |e: GitConfigSetGlobal| e@,
                                            recorded,
                                        );
                                    }
                                    git_table.push(recorded);
                                    Ok(action)
                                },
                            }
                        }
                    }
                },
            }
        },
    }
}

pub open spec fn spec_git_removal_command(option_name: Seq<char>) -> Seq<Seq<char>> {
    seq!["git"@, "config"@, "unset"@, "--global"@, option_name]
}

/// Removal policy: unset exactly the options absent from the target map.
pub open spec fn spec_git_removal(m: Map<Seq<char>, Seq<char>>, option_name: Seq<char>) -> Option<
    Seq<Seq<char>>,
> {
    if m.contains_key(option_name) {
        None
    } else {
        Some(spec_git_removal_command(option_name))
    }
}

pub open spec fn spec_git_set_command(option_name: Seq<char>, value: Seq<char>) -> Seq<Seq<char>> {
    seq!["git"@, "config"@, "set"@, "--global"@, option_name, value]
}

/// Install policy: no command when the current map holds the identical value;
/// otherwise the set form, which also serves as the update form for this
/// domain.
pub open spec fn spec_git_set_or_update(
    m: Map<Seq<char>, Seq<char>>,
    option_name: Seq<char>,
    value: Seq<char>,
) -> Option<Seq<Seq<char>>> {
    if m.contains_key(option_name) && m[option_name] == value {
        None
    } else {
        Some(spec_git_set_command(option_name, value))
    }
}

pub fn compute_git_global_config_removal_command(
    target_state_git_table: &Vec<GitConfigSetGlobal>,
    current_state_action: &GitConfigSetGlobal,
) -> (r: Option<Command>)
    ensures
        opt_command_view(r) == spec_git_removal(
            pairs_map(git_views(target_state_git_table@)),
            current_state_action@.0,
        ),
        r matches Some(c) ==> c.wf(),
{
    match git_lookup(target_state_git_table, current_state_action.option_name.as_str()) {
        Some(_) => None,
        None => {
            proof {
                reveal_strlit("git");
            }
            let mut tokens: Vec<String> = Vec::new();
            tokens.push("git".to_owned());
            tokens.push("config".to_owned());
            tokens.push("unset".to_owned());
            tokens.push("--global".to_owned());
            tokens.push(current_state_action.option_name.clone());
            let c = Command::new(tokens);
            proof {
                assert(c@ =~= spec_git_removal_command(current_state_action@.0));
            }
            Some(c)
        },
    }
}

pub fn compute_git_global_config_set_or_update_command(
    current_state_git_table: &Vec<GitConfigSetGlobal>,
    target_state_action: &GitConfigSetGlobal,
) -> (r: Option<Command>)
    ensures
        opt_command_view(r) == spec_git_set_or_update(
            pairs_map(git_views(current_state_git_table@)),
            target_state_action@.0,
            target_state_action@.1,
        ),
        r matches Some(c) ==> c.wf(),
{
    let up_to_date = match git_lookup(
        current_state_git_table,
        target_state_action.option_name.as_str(),
    ) {
        Some(prev) => str_eq(prev.as_str(), target_state_action.value.as_str()),
        None => false,
    };
    if up_to_date {
        None
    } else {
        proof {
            reveal_strlit("git");
        }
        let mut tokens: Vec<String> = Vec::new();
        tokens.push("git".to_owned());
        tokens.push("config".to_owned());
        tokens.push("set".to_owned());
        tokens.push("--global".to_owned());
        tokens.push(target_state_action.option_name.clone());
        tokens.push(target_state_action.value.clone());
        let c = Command::new(tokens);
        proof {
            assert(c@ =~= spec_git_set_command(target_state_action@.0, target_state_action@.1));
        }
        Some(c)
    }
}

} // verus!
