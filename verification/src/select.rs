//! Splitting a selection of packages by provider before installation.
//!
//! The user marks packages across providers; each provider's installer is
//! then invoked with only its own names, stripped of any `repository/`
//! prefix.

use vstd::prelude::*;

use crate::normalize::{pure_name, pure_name_spec, str_eq};
use crate::rank::Package;

verus! {

/// The provider of the first listed package with the given name, if any.
pub open spec fn find_provider(pkgs: Seq<Package>, name: Seq<char>) -> Option<Seq<char>>
    decreases pkgs.len(),
{
    if pkgs.len() == 0 {
        None
    } else if pkgs[0].name@ == name {
        Some(pkgs[0].provider@)
    } else {
        find_provider(pkgs.drop_first(), name)
    }
}

/// The views of a sequence of names.
pub open spec fn name_views(names: Seq<String>) -> Seq<Seq<char>> {
    names.map_values(|n: String| n@)
}

/// The selected names among the first `n` whose package's provider is
/// `provider`, in selection order.
pub open spec fn selected_for(
    pkgs: Seq<Package>,
    selected: Seq<Seq<char>>,
    provider: Seq<char>,
    n: int,
) -> Seq<Seq<char>>
    decreases n,
{
    if n <= 0 {
        Seq::empty()
    } else {
        let prev = selected_for(pkgs, selected, provider, n - 1);
        if find_provider(pkgs, selected[n - 1]) == Some(provider) {
            prev.push(selected[n - 1])
        } else {
            prev
        }
    }
}

fn find_provider_exec<'a>(pkgs: &'a Vec<Package>, name: &str) -> (r: Option<&'a String>)
    ensures
        match r {
            Some(p) => find_provider(pkgs@, name@) == Some(p@),
            None => find_provider(pkgs@, name@) is None,
        },
{
    let mut i: usize = 0;
    proof {
        assert(pkgs@.skip(0) =~= pkgs@);
    }
    while i < pkgs.len()
        invariant
            i <= pkgs@.len(),
            find_provider(pkgs@, name@) == find_provider(pkgs@.skip(i as int), name@),
        decreases pkgs@.len() - i,
    {
        let ghost tail = pkgs@.skip(i as int);
        proof {
            assert(tail[0] == pkgs@[i as int]);
            assert(tail.drop_first() =~= pkgs@.skip(i as int + 1));
        }
        if str_eq(pkgs[i].name.as_str(), name) {
            return Some(&pkgs[i].provider);
        }
        i = i + 1;
    }
    None
}

/// Splits the selected names into those provided by `pacman` and those
/// provided by `aur`, in selection order.  A name that matches no listed
/// package, or whose package has another provider, is dropped.
pub fn partition_selected(pkgs: &Vec<Package>, selected: &Vec<String>) -> (r: (
    Vec<String>,
    Vec<String>,
))
    ensures
        name_views(r.0@) == selected_for(pkgs@, name_views(selected@), "pacman"@, selected@.len() as int),
        name_views(r.1@) == selected_for(pkgs@, name_views(selected@), "aur"@, selected@.len() as int),
{
    let ghost sel = name_views(selected@);
    let mut pac: Vec<String> = Vec::new();
    let mut aur: Vec<String> = Vec::new();
    let mut i: usize = 0;
    proof {
        reveal_strlit("pacman");
        reveal_strlit("aur");
        assert(forall|k: int| 0 <= k < sel.len() ==> #[trigger] sel[k] == selected@[k]@);
        assert(name_views(pac@) =~= selected_for(pkgs@, sel, "pacman"@, 0));
        assert(name_views(aur@) =~= selected_for(pkgs@, sel, "aur"@, 0));
    }
    while i < selected.len()
        invariant
            i <= selected@.len(),
            sel == name_views(selected@),
            forall|k: int| 0 <= k < sel.len() ==> #[trigger] sel[k] == selected@[k]@,
            name_views(pac@) == selected_for(pkgs@, sel, "pacman"@, i as int),
            name_views(aur@) == selected_for(pkgs@, sel, "aur"@, i as int),
        decreases selected@.len() - i,
    {
        proof {
            reveal_strlit("pacman");
            reveal_strlit("aur");
        }
        let ghost pac0 = name_views(pac@);
        let ghost aur0 = name_views(aur@);
        match find_provider_exec(pkgs, selected[i].as_str()) {
            None => {
                proof {
                    assert(find_provider(pkgs@, sel[i as int]) != Some("pacman"@));
                    assert(find_provider(pkgs@, sel[i as int]) != Some("aur"@));
                }
            },
            Some(provider) => {
                if str_eq(provider.as_str(), "pacman") {
                    pac.push(selected[i].clone());
                    proof {
                        reveal_strlit("pacman");
                        reveal_strlit("aur");
                        assert("pacman"@.len() != "aur"@.len());
                        assert(find_provider(pkgs@, sel[i as int]) == Some("pacman"@));
                        assert(find_provider(pkgs@, sel[i as int]) != Some("aur"@));
                        assert(name_views(pac@) =~= pac0.push(sel[i as int]));
                    }
                } else if str_eq(provider.as_str(), "aur") {
                    aur.push(selected[i].clone());
                    proof {
                        assert(find_provider(pkgs@, sel[i as int]) == Some("aur"@));
                        assert(find_provider(pkgs@, sel[i as int]) != Some("pacman"@));
                        assert(name_views(aur@) =~= aur0.push(sel[i as int]));
                    }
                } else {
                    proof {
                        assert(find_provider(pkgs@, sel[i as int]) != Some("pacman"@));
                        assert(find_provider(pkgs@, sel[i as int]) != Some("aur"@));
                    }
                }
            },
        }
        i = i + 1;
    }
    (pac, aur)
}

/// The bare names of the selected packages, ready for an installer's
/// argument list.
pub fn pure_names(names: &Vec<String>) -> (r: Vec<String>)
    ensures
        r@.len() == names@.len(),
        forall|k: int| 0 <= k < r@.len() ==> (#[trigger] r@[k])@ == pure_name_spec(names@[k]@),
{
    let mut r: Vec<String> = Vec::new();
    let mut i: usize = 0;
    while i < names.len()
        invariant
            i <= names@.len(),
            r@.len() == i,
            forall|k: int| 0 <= k < i ==> (#[trigger] r@[k])@ == pure_name_spec(names@[k]@),
        decreases names@.len() - i,
    {
        r.push(pure_name(names[i].as_str()));
        i = i + 1;
    }
    r
}

} // verus!
