//! Which provider the dashboard shows: keeping the selection valid and
//! stepping through the providers in a circle.

use vstd::prelude::*;
use vstd::string::*;

use crate::cache::path_views;

verus! {

/// `name` stands at `index` and nowhere before it.
pub open spec fn first_at(names: Seq<Seq<char>>, name: Seq<char>, index: int) -> bool {
    &&& 0 <= index < names.len()
    &&& names[index] == name
    &&& forall|k: int| 0 <= k < index ==> names[k] != name
}

/// The place from which the selection steps: where the selected provider
/// first stands, or the first place where nothing valid is selected.
pub open spec fn current_index(names: Seq<Seq<char>>, selected: Option<Seq<char>>) -> int {
    match selected {
        Some(name) => if names.contains(name) {
            choose|index: int| first_at(names, name, index)
        } else {
            0
        },
        None => 0,
    }
}

/// The value of an optional name.
pub open spec fn name_view(name: Option<String>) -> Option<Seq<char>> {
    match name {
        Some(n) => Some(n@),
        None => None,
    }
}

/// Finds where `name` first stands among `names`.
fn position(names: &Vec<String>, name: &String) -> (out: Option<usize>)
    ensures
        match out {
            Some(index) => first_at(path_views(names@), name@, index as int),
            None => !path_views(names@).contains(name@),
        },
{
    let ghost views = path_views(names@);
    let mut i: usize = 0;
    while i < names.len()
        invariant
            i <= names@.len(),
            views == path_views(names@),
            forall|k: int| 0 <= k < i ==> views[k] != name@,
        decreases names@.len() - i,
    {
        if names[i] == *name {
            assert(views[i as int] == name@);
            return Some(i);
        }
        i += 1;
    }
    None
}

/// Finds the place from which the selection steps.
fn current(names: &Vec<String>, selected: &Option<String>) -> (out: usize)
    requires
        names@.len() > 0,
    ensures
        out == current_index(path_views(names@), name_view(*selected)),
        out < names@.len(),
{
    match selected {
        Some(name) => match position(names, name) {
            Some(index) => {
                proof {
                    let views = path_views(names@);
                    let chosen = choose|index: int| first_at(views, name@, index);
                    assert(first_at(views, name@, index as int));
                    assert(views.contains(name@));
                    assert(first_at(views, name@, chosen));
                    if chosen < index {
                    } else if index < chosen {
                    }
                }
                index
            },
            None => 0,
        },
        None => 0,
    }
}

/// Keeps the selection valid: nothing is selected while there are no
/// providers, a selected provider that is still there stays selected, and
/// else the first provider is.
pub fn sync_selected_provider(providers: &Vec<String>, selected: Option<String>) -> (out: Option<
    String,
>)
    ensures
        name_view(out) == if providers@.len() == 0 {
            None
        } else {
            match name_view(selected) {
                Some(name) => if path_views(providers@).contains(name) {
                    Some(name)
                } else {
                    Some(providers@[0]@)
                },
                None => Some(providers@[0]@),
            }
        },
{
    if providers.len() == 0 {
        return None;
    }
    if let Some(name) = selected {
        if position(providers, &name).is_some() {
            return Some(name);
        }
    }
    Some(providers[0].clone())
}

/// Moves the selection to the next provider, from the last to the first.
pub fn select_next_provider(providers: &Vec<String>, selected: &Option<String>) -> (out: Option<
    String,
>)
    ensures
        name_view(out) == if providers@.len() == 0 {
            None
        } else {
            Some(
                providers@[(current_index(path_views(providers@), name_view(*selected)) + 1)
                    % (providers@.len() as int)]@,
            )
        },
{
    if providers.len() == 0 {
        return None;
    }
    let here = current(providers, selected);
    let next = if here + 1 == providers.len() {
        0
    } else {
        here + 1
    };
    proof {
        let len = providers@.len() as int;
        if here + 1 == len {
            vstd::arithmetic::div_mod::lemma_mod_self_0(len);
        } else {
            vstd::arithmetic::div_mod::lemma_small_mod((here + 1) as nat, len as nat);
        }
    }
    Some(providers[next].clone())
}

/// Moves the selection to the previous provider, from the first to the last.
pub fn select_prev_provider(providers: &Vec<String>, selected: &Option<String>) -> (out: Option<
    String,
>)
    ensures
        name_view(out) == if providers@.len() == 0 {
            None
        } else {
            let here = current_index(path_views(providers@), name_view(*selected));
            Some(
                providers@[if here == 0 {
                    providers@.len() - 1
                } else {
                    here - 1
                }]@,
            )
        },
{
    if providers.len() == 0 {
        return None;
    }
    let here = current(providers, selected);
    let prev = if here == 0 {
        providers.len() - 1
    } else {
        here - 1
    };
    Some(providers[prev].clone())
}

/// Opens the help if it is closed and closes it if it is open. Answers with
/// the new state and the status text that goes with it.
pub fn toggle_help(show_help: bool) -> (out: (bool, String))
    ensures
        out.0 == !show_help,
        out.1@ == if show_help {
            "Help closed"@
        } else {
            "Help opened"@
        },
{
    if show_help {
        (false, "Help closed".to_owned())
    } else {
        (true, "Help opened".to_owned())
    }
}

} // verus!
