//! The global-recipe domain: lines of the form
//! `pixi global install <recipe>=<version>; \`.

use vstd::prelude::*;

use crate::command::{opt_command_view, Command};
use crate::common::{has_cont_suffix, strip_cont_suffix};
use crate::errors::{ParseErrorKind, ParseErrorKindV};
use crate::strutil::{find_char, find_char_str, lemma_find_char, str_eq};
use crate::table::{lemma_pairs_map_take, pairs_map};

verus! {

/// A declared recipe install: the recipe name and the full
/// `recipe=version` token.
#[derive(Debug)]
pub struct PixiGlobalInstall {
    pub recipe: String,
    pub recipe_and_version: String,
}

impl View for PixiGlobalInstall {
    type V = (Seq<char>, Seq<char>);

    open spec fn view(&self) -> (Seq<char>, Seq<char>) {
        (self.recipe@, self.recipe_and_version@)
    }
}

impl Clone for PixiGlobalInstall {
    fn clone(&self) -> (r: Self)
        ensures
            r@ == self@,
    {
        PixiGlobalInstall {
            recipe: self.recipe.clone(),
            recipe_and_version: self.recipe_and_version.clone(),
        }
    }
}

/// The identity/payload pairs a recipe table holds.
pub open spec fn pixi_views(t: Seq<PixiGlobalInstall>) -> Seq<(Seq<char>, Seq<char>)> {
    t.map_values(|e: PixiGlobalInstall| e@)
}

/// The payload recorded for `recipe`, if the table holds the identity.
fn pixi_lookup(table: &Vec<PixiGlobalInstall>, recipe: &str) -> (r: Option<String>)
    ensures
        match r {
            Some(prev) => pairs_map(pixi_views(table@)).contains_key(recipe@) && prev@ == pairs_map(
                pixi_views(table@),
            )[recipe@],
            None => !pairs_map(pixi_views(table@)).contains_key(recipe@),
        },
{
    let ghost s = pixi_views(table@);
    let mut i: usize = table.len();
    while i > 0
        invariant
            0 <= i <= table@.len(),
            s == pixi_views(table@),
            s.len() == table@.len(),
            forall|j: int| i <= j < s.len() ==> s[j].0 != recipe@,
        decreases i,
    {
        i = i - 1;
        if str_eq(table[i].recipe.as_str(), recipe) {
            proof {
                assert(s[i as int] == table@[i as int]@);
                assert(s[i as int].0 == recipe@);
                lemma_pairs_map_take(s, recipe@, i + 1);
                assert(s.take(i + 1).drop_last() =~= s.take(i as int));
                assert(s.take(i + 1).last() == s[i as int]);
            }
            return Some(table[i].recipe_and_version.clone());
        }
    }
    proof {
        lemma_pairs_map_take(s, recipe@, 0);
        assert(s.take(0) =~= Seq::<(Seq<char>, Seq<char>)>::empty());
    }
    None
}

/// What parsing one suffix-stripped recipe line yields, given the map of the
/// identities seen so far: the recipe and the `recipe=version` token, or the
/// exact error.
pub open spec fn spec_parse_pixi_line(stripped: Seq<char>, m: Map<Seq<char>, Seq<char>>) -> Result<
    (Seq<char>, Seq<char>),
    ParseErrorKindV,
> {
    if !has_cont_suffix(stripped) {
        Err(ParseErrorKindV::PixiMissingSuffix)
    } else {
        let rv = stripped.take(stripped.len() - 3);
        if rv.len() == 0 {
            Err(ParseErrorKindV::EmptyRecipeAndVersion)
        } else {
            match find_char(rv, '=') {
                None => Err(ParseErrorKindV::MissingEquals),
                Some(i) => {
                    let recipe = rv.take(i);
                    if recipe.len() == 0 {
                        Err(ParseErrorKindV::EmptyRecipe)
                    } else if m.contains_key(recipe) {
                        Err(ParseErrorKindV::DuplicateRecipe { recipe, previous: m[recipe] })
                    } else {
                        Ok((recipe, rv))
                    }
                },
            }
        }
    }
}

/// Parses one left-trimmed line whose `pixi global install ` prefix has been
/// stripped, records the action in the table, and returns it; fails exactly
/// as `spec_parse_pixi_line` says.
pub fn parse_stripped_line_with_pixi_global_install(
    stripped_line: &str,
    pixi_table: &mut Vec<PixiGlobalInstall>,
) -> (r: Result<PixiGlobalInstall, ParseErrorKind>)
    ensures
        match spec_parse_pixi_line(stripped_line@, pairs_map(pixi_views(old(pixi_table)@))) {
            Ok(p) => r matches Ok(a) && a@ == p && pixi_views(final(pixi_table)@) == pixi_views(
                old(pixi_table)@,
            ).push(p),
            Err(k) => r matches Err(e) && e@ == k && final(pixi_table)@ == old(pixi_table)@,
        },
{
    match strip_cont_suffix(stripped_line) {
        None => Err(ParseErrorKind::PixiMissingSuffix),
        Some(rv_str) => {
            if rv_str.is_empty() {
                Err(ParseErrorKind::EmptyRecipeAndVersion)
            } else {
                match find_char_str(rv_str, '=') {
                    None => Err(ParseErrorKind::MissingEquals),
                    Some(i) => {
                        proof {
                            lemma_find_char(rv_str@, '=');
                        }
                        let recipe_str = rv_str.substring_char(0, i);
                        proof {
                            assert(recipe_str@ =~= rv_str@.take(i as int));
                        }
                        if recipe_str.is_empty() {
                            Err(ParseErrorKind::EmptyRecipe)
                        } else {
                            match pixi_lookup(pixi_table, recipe_str) {
                                Some(prev) => Err(ParseErrorKind::DuplicateRecipe {
                                    recipe: recipe_str.to_owned(),
                                    previous: prev,
                                }),
                                None => {
                                    let action = PixiGlobalInstall {
                                        recipe: recipe_str.to_owned(),
                                        recipe_and_version: rv_str.to_owned(),
                                    };
                                    let recorded = action.clone();
                                    proof {
                                        crate::strutil::lemma_map_values_push(
                                            pixi_table@,
                                            |e: PixiGlobalInstall| e@,
                                            recorded,
                                        );
                                    }
                                    pixi_table.push(recorded);
                                    Ok(action)
                                },
                            }
                        }
                    },
                }
            }
        },
    }
}

pub open spec fn spec_recipe_removal_command(recipe: Seq<char>) -> Seq<Seq<char>> {
    seq!["pixi"@, "global"@, "uninstall"@, recipe]
}

/// Removal policy: uninstall exactly the recipes absent from the target map.
pub open spec fn spec_recipe_removal(m: Map<Seq<char>, Seq<char>>, recipe: Seq<char>) -> Option<
    Seq<Seq<char>>,
> {
    if m.contains_key(recipe) {
        None
    } else {
        Some(spec_recipe_removal_command(recipe))
    }
}

pub open spec fn spec_recipe_install_command(recipe_and_version: Seq<char>) -> Seq<Seq<char>> {
    seq!["pixi"@, "global"@, "install"@, recipe_and_version]
}

/// Install policy: no command when the current map holds the identical
/// `recipe=version` token; otherwise the install form, which also serves as
/// the update form for this domain.
pub open spec fn spec_recipe_install_or_update(
    m: Map<Seq<char>, Seq<char>>,
    recipe: Seq<char>,
    recipe_and_version: Seq<char>,
) -> Option<Seq<Seq<char>>> {
    if m.contains_key(recipe) && m[recipe] == recipe_and_version {
        None
    } else {
        Some(spec_recipe_install_command(recipe_and_version))
    }
}

pub fn compute_recipe_removal_command(
    target_state_pixi_table: &Vec<PixiGlobalInstall>,
    current_state_action: &PixiGlobalInstall,
) -> (r: Option<Command>)
    ensures
        opt_command_view(r) == spec_recipe_removal(
            pairs_map(pixi_views(target_state_pixi_table@)),
            current_state_action@.0,
        ),
        r matches Some(c) ==> c.wf(),
{
    match pixi_lookup(target_state_pixi_table, current_state_action.recipe.as_str()) {
        Some(_) => None,
        None => {
            proof {
                reveal_strlit("pixi");
            }
            let mut tokens: Vec<String> = Vec::new();
            tokens.push("pixi".to_owned());
            tokens.push("global".to_owned());
            tokens.push("uninstall".to_owned());
            tokens.push(current_state_action.recipe.clone());
            let c = Command::new(tokens);
            proof {
                assert(c@ =~= spec_recipe_removal_command(current_state_action@.0));
            }
            Some(c)
        },
    }
}

pub fn compute_recipe_install_or_update_command(
    current_state_pixi_table: &Vec<PixiGlobalInstall>,
    target_state_action: &PixiGlobalInstall,
) -> (r: Option<Command>)
    ensures
        opt_command_view(r) == spec_recipe_install_or_update(
            pairs_map(pixi_views(current_state_pixi_table@)),
            target_state_action@.0,
            target_state_action@.1,
        ),
        r matches Some(c) ==> c.wf(),
{
    let up_to_date = match pixi_lookup(
        current_state_pixi_table,
        target_state_action.recipe.as_str(),
    ) {
        Some(prev) => str_eq(prev.as_str(), target_state_action.recipe_and_version.as_str()),
        None => false,
    };
    if up_to_date {
        None
    } else {
        proof {
            reveal_strlit("pixi");
        }
        let mut tokens: Vec<String> = Vec::new();
        tokens.push("pixi".to_owned());
        tokens.push("global".to_owned());
        tokens.push("install".to_owned());
        tokens.push(target_state_action.recipe_and_version.clone());
        let c = Command::new(tokens);
        proof {
            assert(c@ =~= spec_recipe_install_command(target_state_action@.1));
        }
        Some(c)
    }
}

} // verus!
