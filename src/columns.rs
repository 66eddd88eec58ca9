use vstd::prelude::*;

use crate::dataset::names_view;
use crate::value::same_text;

verus! {

/// What `str::to_lowercase` makes of a string.
pub uninterp spec fn lower_of(s: Seq<char>) -> Seq<char>;

/// Relies on `str::to_lowercase`: its result depends on the characters alone.
#[verifier::external_body]
fn lowercase(s: &str) -> (r: String)
    ensures
        r@ == lower_of(s@),
{
    s.to_lowercase()
}

/// The lowercased form of each name.
pub open spec fn lowered(names: Seq<Seq<char>>) -> Seq<Seq<char>> {
    names.map_values(|s: Seq<char>| lower_of(s))
}

/// The position of the last entry of `lowered` that is one of `aliases`.
pub open spec fn last_match(lowered: Seq<Seq<char>>, aliases: Seq<Seq<char>>) -> Option<int>
    decreases lowered.len(),
{
    if lowered.len() == 0 {
        None
    } else if aliases.contains(lowered.last()) {
        Some(lowered.len() - 1)
    } else {
        last_match(lowered.drop_last(), aliases)
    }
}

/// The column that a role resolves to: the last one whose lowercased name is an alias.
pub open spec fn role_column(names: Seq<Seq<char>>, aliases: Seq<Seq<char>>) -> Option<Seq<char>> {
    match last_match(lowered(names), aliases) {
        Some(i) => Some(names[i]),
        None => None,
    }
}

pub open spec fn latitude_aliases() -> Seq<Seq<char>> {
    seq!["latitude"@, "lat"@]
}

pub open spec fn longitude_aliases() -> Seq<Seq<char>> {
    seq!["longitude"@, "lon"@, "lng"@]
}

pub open spec fn h3_aliases() -> Seq<Seq<char>> {
    seq!["h3point"@, "h3cell"@, "h3index"@]
}

/// The latitude and longitude columns, when both resolve.
pub open spec fn lat_lon_pair(names: Seq<Seq<char>>) -> Option<(Seq<char>, Seq<char>)> {
    match (role_column(names, latitude_aliases()), role_column(names, longitude_aliases())) {
        (Some(a), Some(b)) => Some((a, b)),
        _ => None,
    }
}

proof fn lemma_last_match(lowered: Seq<Seq<char>>, aliases: Seq<Seq<char>>)
    ensures
        match last_match(lowered, aliases) {
            Some(i) => 0 <= i < lowered.len() && aliases.contains(lowered[i]) && forall|j: int|
                i < j < lowered.len() ==> !aliases.contains(#[trigger] lowered[j]),
            None => forall|j: int| 0 <= j < lowered.len() ==> !aliases.contains(#[trigger] lowered[j]),
        },
    decreases lowered.len(),
{
    if lowered.len() > 0 && !aliases.contains(lowered.last()) {
        let rest = lowered.drop_last();
        lemma_last_match(rest, aliases);
        assert forall|j: int| 0 <= j < lowered.len() - 1 implies #[trigger] rest[j]
            == lowered[j] by {}
        match last_match(rest, aliases) {
            Some(i) => {
                assert(rest[i] == lowered[i]);
                assert forall|j: int| i < j < lowered.len() implies !aliases.contains(
                    #[trigger] lowered[j],
                ) by {
                    if j < lowered.len() - 1 {
                        assert(rest[j] == lowered[j]);
                    }
                }
            },
            None => {
                assert forall|j: int| 0 <= j < lowered.len() implies !aliases.contains(
                    #[trigger] lowered[j],
                ) by {
                    if j < lowered.len() - 1 {
                        assert(rest[j] == lowered[j]);
                    }
                }
            },
        }
    }
}

/// A role resolves to nothing exactly when no column name, lowercased, is one
/// of its aliases; otherwise to the last column whose name is.
pub proof fn lemma_role_column(names: Seq<Seq<char>>, aliases: Seq<Seq<char>>)
    ensures
        role_column(names, aliases) is None <==> forall|j: int|
            0 <= j < names.len() ==> !aliases.contains(lower_of(#[trigger] names[j])),
        role_column(names, aliases) is Some ==> exists|i: int|
            0 <= i < names.len() && aliases.contains(lower_of(names[i])) && role_column(
                names,
                aliases,
            ) == Some(names[i]) && forall|j: int|
                i < j < names.len() ==> !aliases.contains(lower_of(#[trigger] names[j])),
{
    let low = lowered(names);
    lemma_last_match(low, aliases);
    assert forall|j: int| 0 <= j < names.len() implies #[trigger] low[j] == lower_of(names[j]) by {}
    match last_match(low, aliases) {
        Some(i) => {
            assert(low[i] == lower_of(names[i]));
            assert forall|j: int| i < j < names.len() implies !aliases.contains(
                lower_of(#[trigger] names[j]),
            ) by {
                assert(low[j] == lower_of(names[j]));
            }
        },
        None => {
            assert forall|j: int| 0 <= j < names.len() implies !aliases.contains(
                lower_of(#[trigger] names[j]),
            ) by {
                assert(low[j] == lower_of(names[j]));
            }
        },
    }
}

/// Whether `s` is one of `aliases`.
pub fn is_alias(s: &String, aliases: &Vec<String>) -> (r: bool)
    ensures
        r == names_view(aliases@).contains(s@),
{
    let mut i: usize = 0;
    while i < aliases.len()
        invariant
            i <= aliases@.len(),
            forall|j: int| 0 <= j < i ==> aliases@[j]@ != s@,
        decreases aliases@.len() - i,
    {
        if same_text(aliases[i].as_str(), s.as_str()) {
            assert(names_view(aliases@)[i as int] == s@);
            return true;
        }
        i = i + 1;
    }
    assert forall|j: int| 0 <= j < aliases@.len() implies names_view(aliases@)[j] != s@ by {
        assert(aliases@[j]@ != s@);
    }
    false
}

/// The position of the last of the already lowercased names that is one of `aliases`.
pub fn last_alias_match(lowered_names: &Vec<String>, aliases: &Vec<String>) -> (r: Option<usize>)
    ensures
        match last_match(names_view(lowered_names@), names_view(aliases@)) {
            Some(i) => r == Some(i as usize),
            None => r is None,
        },
{
    let ghost low = names_view(lowered_names@);
    let ghost al = names_view(aliases@);
    let mut n: usize = lowered_names.len();
    assert(low.subrange(0, n as int) =~= low);
    while n > 0
        invariant
            n <= lowered_names@.len(),
            low == names_view(lowered_names@),
            al == names_view(aliases@),
            last_match(low, al) == last_match(low.subrange(0, n as int), al),
        decreases n,
    {
        let ghost sub = low.subrange(0, n as int);
        assert(sub.last() == lowered_names@[n - 1]@);
        assert(sub.drop_last() =~= low.subrange(0, n - 1));
        if is_alias(&lowered_names[n - 1], aliases) {
            return Some(n - 1);
        }
        n = n - 1;
    }
    None
}

/// The column that a role resolves to among `column_names`: the last whose
/// lowercased name is one of `aliases`.
pub fn find_column(column_names: &Vec<String>, aliases: &Vec<String>) -> (r: Option<String>)
    ensures
        match r {
            Some(s) => role_column(names_view(column_names@), names_view(aliases@)) == Some(s@),
            None => role_column(names_view(column_names@), names_view(aliases@)) is None,
        },
{
    let mut low: Vec<String> = Vec::new();
    let mut i: usize = 0;
    while i < column_names.len()
        invariant
            i <= column_names@.len(),
            low@.len() == i,
            forall|j: int| 0 <= j < i ==> #[trigger] low@[j]@ == lower_of(column_names@[j]@),
        decreases column_names@.len() - i,
    {
        let l = lowercase(column_names[i].as_str());
        low.push(l);
        i = i + 1;
    }
    assert(names_view(low@) =~= lowered(names_view(column_names@)));
    proof {
        lemma_last_match(names_view(low@), names_view(aliases@));
    }
    match last_alias_match(&low, aliases) {
        Some(k) => Some(column_names[k].clone()),
        None => None,
    }
}

/// One resolved column for each group of aliases, in the order of the groups.
pub fn find_columns(column_names: &Vec<String>, groups: &Vec<Vec<String>>) -> (r: Vec<Option<String>>)
    ensures
        r@.len() == groups@.len(),
        forall|g: int|
            0 <= g < groups@.len() ==> match #[trigger] r@[g] {
                Some(s) => role_column(names_view(column_names@), names_view(groups@[g]@)) == Some(
                    s@,
                ),
                None => role_column(names_view(column_names@), names_view(groups@[g]@)) is None,
            },
{
    let mut out: Vec<Option<String>> = Vec::new();
    let mut g: usize = 0;
    while g < groups.len()
        invariant
            g <= groups@.len(),
            out@.len() == g,
            forall|k: int|
                0 <= k < g ==> match #[trigger] out@[k] {
                    Some(s) => role_column(names_view(column_names@), names_view(groups@[k]@))
                        == Some(s@),
                    None => role_column(names_view(column_names@), names_view(groups@[k]@)) is None,
                },
        decreases groups@.len() - g,
    {
        out.push(find_column(column_names, &groups[g]));
        g = g + 1;
    }
    out
}

fn literal(s: &str) -> (r: String)
    ensures
        r@ == s@,
{
    String::from_str(s)
}

/// The aliases of the latitude role.
pub fn latitude_names() -> (r: Vec<String>)
    ensures
        names_view(r@) == latitude_aliases(),
{
    let r = vec![literal("latitude"), literal("lat")];
    assert(names_view(r@) =~= latitude_aliases());
    r
}

/// The aliases of the longitude role.
pub fn longitude_names() -> (r: Vec<String>)
    ensures
        names_view(r@) == longitude_aliases(),
{
    let r = vec![literal("longitude"), literal("lon"), literal("lng")];
    assert(names_view(r@) =~= longitude_aliases());
    r
}

/// The aliases of the H3 cell role.
pub fn h3_names() -> (r: Vec<String>)
    ensures
        names_view(r@) == h3_aliases(),
{
    let r = vec![literal("h3point"), literal("h3cell"), literal("h3index")];
    assert(names_view(r@) =~= h3_aliases());
    r
}

/// The latitude and longitude columns, when both resolve; `None` when either does not.
pub fn find_lat_lon_columns(column_names: &Vec<String>) -> (r: Option<(String, String)>)
    ensures
        match r {
            Some((a, b)) => lat_lon_pair(names_view(column_names@)) == Some((a@, b@)),
            None => lat_lon_pair(names_view(column_names@)) is None,
        },
{
    let lat = find_column(column_names, &latitude_names());
    let lon = find_column(column_names, &longitude_names());
    match (lat, lon) {
        (Some(a), Some(b)) => Some((a, b)),
        _ => None,
    }
}

/// The H3 cell column, when it resolves.
pub fn find_h3cell_columns(column_names: &Vec<String>) -> (r: Option<String>)
    ensures
        match r {
            Some(s) => role_column(names_view(column_names@), h3_aliases()) == Some(s@),
            None => role_column(names_view(column_names@), h3_aliases()) is None,
        },
{
    find_column(column_names, &h3_names())
}

} // verus!
