//! The names a result's columns are reported under: Grust's, or Neo4j Graph
//! Data Science's where GDS names the same quantity differently.
use vstd::prelude::*;
use vstd::string::*;

use crate::error::{join2, join3, NutmegError};
pub use crate::frame::field_names;
use crate::frame::{
    batch_fields, batch_rows, data_type_text, field_defs, field_info, field_metadata, field_name, field_nullable, reschema, with_name, Batch, FieldDef,
};
use crate::options::{JsonKind, Options};
use crate::text::{chars_of, eq_chars, lower_chars, lower_seq, string_of, trim, trim_chars};

verus! {

/// The names a result's columns are reported under.
///
/// `Grust` (the default) is the registry's declared outputs, the names
/// `CALL grust.algorithms.<name>(...) YIELD ...` uses. `Gds` renames the
/// columns listed in [`gds_column_aliases`] to the names Neo4j Graph Data
/// Science gives the same quantity; every other column keeps its Grust name.
/// The choice is per read, so no Grust name is ever unreachable.
#[derive(Clone, Copy, Debug, PartialEq, Eq, Structural)]
pub enum ColumnNames {
    Grust,
    Gds,
}

impl Default for ColumnNames {
    fn default() -> (r: Self)
        ensures
            r == ColumnNames::Grust,
    {
        ColumnNames::Grust
    }
}

/// The read option, SQL configuration key and client keyword that choose
/// [`ColumnNames`]. It is Nutmeg's, not an algorithm option: it is taken out
/// before Grust validates the rest.
pub const COLUMN_NAMES_OPTION: &'static str = "columnNames";

/// A choice as it is matched: trimmed and ASCII-lowercased.
pub open spec fn choice(text: Seq<char>) -> Seq<char> {
    lower_seq(trim(text))
}

/// The choice in `text`, trimmed and ASCII-lowercased.
pub fn choice_of(text: &str) -> (r: Vec<char>)
    ensures
        r@ == choice(text@),
{
    let c = chars_of(text);
    let t = trim_chars(c.as_slice());
    lower_chars(t.as_slice())
}

/// Whether `c` spells the literal `word`.
pub fn spells(c: &[char], word: &str) -> (r: bool)
    ensures
        r == (c@ == word@),
{
    let w = chars_of(word);
    eq_chars(c, w.as_slice())
}

/// Grust's column name and the name GDS gives the same quantity, from the
/// GDS procedure pages: Yen's `index`, the stats modes' `ranIterations`,
/// `didConverge` and `ranLevels`, triangle counting's `triangleCount` and
/// `globalTriangleCount`, and the local clustering coefficient's names.
pub open spec fn gds_aliases() -> Seq<(Seq<char>, Seq<char>)> {
    seq![
        ("pathIndex"@, "index"@),
        ("iterations"@, "ranIterations"@),
        ("converged"@, "didConverge"@),
        ("levels"@, "ranLevels"@),
        ("triangles"@, "triangleCount"@),
        ("triangleCount"@, "globalTriangleCount"@),
        ("coefficient"@, "localClusteringCoefficient"@),
        ("averageCoefficient"@, "averageClusteringCoefficient"@),
    ]
}

pub open spec fn pair_views(s: Seq<(String, String)>) -> Seq<(Seq<char>, Seq<char>)> {
    s.map_values(|p: (String, String)| (p.0@, p.1@))
}

/// The GDS name of a Grust column, looked up by its Grust name: the first
/// alias for it, or the name itself.
pub open spec fn alias_in(aliases: Seq<(Seq<char>, Seq<char>)>, name: Seq<char>) -> Seq<char>
    decreases aliases.len(),
{
    if aliases.len() == 0 {
        name
    } else if aliases[0].0 == name {
        aliases[0].1
    } else {
        alias_in(aliases.drop_first(), name)
    }
}

/// Under GDS names each aliased Grust column is reported under its GDS name
/// (Yen's `pathIndex` as `index`, `iterations` as `ranIterations`,
/// `converged` as `didConverge`, `levels` as `ranLevels`, `triangles` as
/// `triangleCount`, `triangleCount` as `globalTriangleCount`, `coefficient`
/// as `localClusteringCoefficient`, `averageCoefficient` as
/// `averageClusteringCoefficient`), every other column under its own name;
/// under Grust's names every column keeps its name.
pub proof fn lemma_gds_names(name: Seq<char>)
    ensures
        renamed(ColumnNames::Gds, "pathIndex"@) == "index"@,
        renamed(ColumnNames::Gds, "iterations"@) == "ranIterations"@,
        renamed(ColumnNames::Gds, "converged"@) == "didConverge"@,
        renamed(ColumnNames::Gds, "levels"@) == "ranLevels"@,
        renamed(ColumnNames::Gds, "triangles"@) == "triangleCount"@,
        renamed(ColumnNames::Gds, "triangleCount"@) == "globalTriangleCount"@,
        renamed(ColumnNames::Gds, "coefficient"@) == "localClusteringCoefficient"@,
        renamed(ColumnNames::Gds, "averageCoefficient"@) == "averageClusteringCoefficient"@,
        name != "pathIndex"@ && name != "iterations"@ && name != "converged"@ && name != "levels"@ && name
            != "triangles"@ && name != "triangleCount"@ && name != "coefficient"@ && name
            != "averageCoefficient"@ ==> renamed(ColumnNames::Gds, name) == name,
        renamed(ColumnNames::Grust, name) == name,
{
    reveal_strlit("pathIndex");
    reveal_strlit("index");
    reveal_strlit("iterations");
    reveal_strlit("ranIterations");
    reveal_strlit("converged");
    reveal_strlit("didConverge");
    reveal_strlit("levels");
    reveal_strlit("ranLevels");
    reveal_strlit("triangles");
    reveal_strlit("triangleCount");
    reveal_strlit("globalTriangleCount");
    reveal_strlit("coefficient");
    reveal_strlit("localClusteringCoefficient");
    reveal_strlit("averageCoefficient");
    reveal_strlit("averageClusteringCoefficient");
    let t0 = gds_aliases();
    let t1 = t0.drop_first();
    assert(t1 =~= seq![("iterations"@, "ranIterations"@), ("converged"@, "didConverge"@), ("levels"@, "ranLevels"@), ("triangles"@, "triangleCount"@), ("triangleCount"@, "globalTriangleCount"@), ("coefficient"@, "localClusteringCoefficient"@), ("averageCoefficient"@, "averageClusteringCoefficient"@)]);
    let t2 = t1.drop_first();
    assert(t2 =~= seq![("converged"@, "didConverge"@), ("levels"@, "ranLevels"@), ("triangles"@, "triangleCount"@), ("triangleCount"@, "globalTriangleCount"@), ("coefficient"@, "localClusteringCoefficient"@), ("averageCoefficient"@, "averageClusteringCoefficient"@)]);
    let t3 = t2.drop_first();
    assert(t3 =~= seq![("levels"@, "ranLevels"@), ("triangles"@, "triangleCount"@), ("triangleCount"@, "globalTriangleCount"@), ("coefficient"@, "localClusteringCoefficient"@), ("averageCoefficient"@, "averageClusteringCoefficient"@)]);
    let t4 = t3.drop_first();
    assert(t4 =~= seq![("triangles"@, "triangleCount"@), ("triangleCount"@, "globalTriangleCount"@), ("coefficient"@, "localClusteringCoefficient"@), ("averageCoefficient"@, "averageClusteringCoefficient"@)]);
    let t5 = t4.drop_first();
    assert(t5 =~= seq![("triangleCount"@, "globalTriangleCount"@), ("coefficient"@, "localClusteringCoefficient"@), ("averageCoefficient"@, "averageClusteringCoefficient"@)]);
    let t6 = t5.drop_first();
    assert(t6 =~= seq![("coefficient"@, "localClusteringCoefficient"@), ("averageCoefficient"@, "averageClusteringCoefficient"@)]);
    let t7 = t6.drop_first();
    assert(t7 =~= seq![("averageCoefficient"@, "averageClusteringCoefficient"@)]);
    let t8 = t7.drop_first();
    assert(t8 =~= Seq::<(Seq<char>, Seq<char>)>::empty());
    assert(alias_in(t8, name) == name);
    assert(t7[0] == ("averageCoefficient"@, "averageClusteringCoefficient"@));
    assert(name != "averageCoefficient"@ ==> alias_in(t7, name) == alias_in(t8, name));
    assert(t6[0] == ("coefficient"@, "localClusteringCoefficient"@));
    assert(name != "coefficient"@ ==> alias_in(t6, name) == alias_in(t7, name));
    assert(t5[0] == ("triangleCount"@, "globalTriangleCount"@));
    assert(name != "triangleCount"@ ==> alias_in(t5, name) == alias_in(t6, name));
    assert(t4[0] == ("triangles"@, "triangleCount"@));
    assert(name != "triangles"@ ==> alias_in(t4, name) == alias_in(t5, name));
    assert(t3[0] == ("levels"@, "ranLevels"@));
    assert(name != "levels"@ ==> alias_in(t3, name) == alias_in(t4, name));
    assert(t2[0] == ("converged"@, "didConverge"@));
    assert(name != "converged"@ ==> alias_in(t2, name) == alias_in(t3, name));
    assert(t1[0] == ("iterations"@, "ranIterations"@));
    assert(name != "iterations"@ ==> alias_in(t1, name) == alias_in(t2, name));
    assert(t0[0] == ("pathIndex"@, "index"@));
    assert(name != "pathIndex"@ ==> alias_in(t0, name) == alias_in(t1, name));
    assert(alias_in(t0, "pathIndex"@) == "index"@);
    assert(alias_in(t1, "iterations"@) == "ranIterations"@);
    assert("iterations"@.len() != "pathIndex"@.len());
    assert("iterations"@ != "pathIndex"@);
    assert(alias_in(t0, "iterations"@) == alias_in(t1, "iterations"@));
    assert(alias_in(t2, "converged"@) == "didConverge"@);
    assert("converged"@.len() != "iterations"@.len());
    assert("converged"@ != "iterations"@);
    assert(alias_in(t1, "converged"@) == alias_in(t2, "converged"@));
    assert("converged"@[0] != "pathIndex"@[0]);
    assert("converged"@ != "pathIndex"@);
    assert(alias_in(t0, "converged"@) == alias_in(t1, "converged"@));
    assert(alias_in(t3, "levels"@) == "ranLevels"@);
    assert("levels"@.len() != "converged"@.len());
    assert("levels"@ != "converged"@);
    assert(alias_in(t2, "levels"@) == alias_in(t3, "levels"@));
    assert("levels"@.len() != "iterations"@.len());
    assert("levels"@ != "iterations"@);
    assert(alias_in(t1, "levels"@) == alias_in(t2, "levels"@));
    assert("levels"@.len() != "pathIndex"@.len());
    assert("levels"@ != "pathIndex"@);
    assert(alias_in(t0, "levels"@) == alias_in(t1, "levels"@));
    assert(alias_in(t4, "triangles"@) == "triangleCount"@);
    assert("triangles"@.len() != "levels"@.len());
    assert("triangles"@ != "levels"@);
    assert(alias_in(t3, "triangles"@) == alias_in(t4, "triangles"@));
    assert("triangles"@[0] != "converged"@[0]);
    assert("triangles"@ != "converged"@);
    assert(alias_in(t2, "triangles"@) == alias_in(t3, "triangles"@));
    assert("triangles"@.len() != "iterations"@.len());
    assert("triangles"@ != "iterations"@);
    assert(alias_in(t1, "triangles"@) == alias_in(t2, "triangles"@));
    assert("triangles"@[0] != "pathIndex"@[0]);
    assert("triangles"@ != "pathIndex"@);
    assert(alias_in(t0, "triangles"@) == alias_in(t1, "triangles"@));
    assert(alias_in(t5, "triangleCount"@) == "globalTriangleCount"@);
    assert("triangleCount"@.len() != "triangles"@.len());
    assert("triangleCount"@ != "triangles"@);
    assert(alias_in(t4, "triangleCount"@) == alias_in(t5, "triangleCount"@));
    assert("triangleCount"@.len() != "levels"@.len());
    assert("triangleCount"@ != "levels"@);
    assert(alias_in(t3, "triangleCount"@) == alias_in(t4, "triangleCount"@));
    assert("triangleCount"@.len() != "converged"@.len());
    assert("triangleCount"@ != "converged"@);
    assert(alias_in(t2, "triangleCount"@) == alias_in(t3, "triangleCount"@));
    assert("triangleCount"@.len() != "iterations"@.len());
    assert("triangleCount"@ != "iterations"@);
    assert(alias_in(t1, "triangleCount"@) == alias_in(t2, "triangleCount"@));
    assert("triangleCount"@.len() != "pathIndex"@.len());
    assert("triangleCount"@ != "pathIndex"@);
    assert(alias_in(t0, "triangleCount"@) == alias_in(t1, "triangleCount"@));
    assert(alias_in(t6, "coefficient"@) == "localClusteringCoefficient"@);
    assert("coefficient"@.len() != "triangleCount"@.len());
    assert("coefficient"@ != "triangleCount"@);
    assert(alias_in(t5, "coefficient"@) == alias_in(t6, "coefficient"@));
    assert("coefficient"@.len() != "triangles"@.len());
    assert("coefficient"@ != "triangles"@);
    assert(alias_in(t4, "coefficient"@) == alias_in(t5, "coefficient"@));
    assert("coefficient"@.len() != "levels"@.len());
    assert("coefficient"@ != "levels"@);
    assert(alias_in(t3, "coefficient"@) == alias_in(t4, "coefficient"@));
    assert("coefficient"@.len() != "converged"@.len());
    assert("coefficient"@ != "converged"@);
    assert(alias_in(t2, "coefficient"@) == alias_in(t3, "coefficient"@));
    assert("coefficient"@.len() != "iterations"@.len());
    assert("coefficient"@ != "iterations"@);
    assert(alias_in(t1, "coefficient"@) == alias_in(t2, "coefficient"@));
    assert("coefficient"@.len() != "pathIndex"@.len());
    assert("coefficient"@ != "pathIndex"@);
    assert(alias_in(t0, "coefficient"@) == alias_in(t1, "coefficient"@));
    assert(alias_in(t7, "averageCoefficient"@) == "averageClusteringCoefficient"@);
    assert("averageCoefficient"@.len() != "coefficient"@.len());
    assert("averageCoefficient"@ != "coefficient"@);
    assert(alias_in(t6, "averageCoefficient"@) == alias_in(t7, "averageCoefficient"@));
    assert("averageCoefficient"@.len() != "triangleCount"@.len());
    assert("averageCoefficient"@ != "triangleCount"@);
    assert(alias_in(t5, "averageCoefficient"@) == alias_in(t6, "averageCoefficient"@));
    assert("averageCoefficient"@.len() != "triangles"@.len());
    assert("averageCoefficient"@ != "triangles"@);
    assert(alias_in(t4, "averageCoefficient"@) == alias_in(t5, "averageCoefficient"@));
    assert("averageCoefficient"@.len() != "levels"@.len());
    assert("averageCoefficient"@ != "levels"@);
    assert(alias_in(t3, "averageCoefficient"@) == alias_in(t4, "averageCoefficient"@));
    assert("averageCoefficient"@.len() != "converged"@.len());
    assert("averageCoefficient"@ != "converged"@);
    assert(alias_in(t2, "averageCoefficient"@) == alias_in(t3, "averageCoefficient"@));
    assert("averageCoefficient"@.len() != "iterations"@.len());
    assert("averageCoefficient"@ != "iterations"@);
    assert(alias_in(t1, "averageCoefficient"@) == alias_in(t2, "averageCoefficient"@));
    assert("averageCoefficient"@.len() != "pathIndex"@.len());
    assert("averageCoefficient"@ != "pathIndex"@);
    assert(alias_in(t0, "averageCoefficient"@) == alias_in(t1, "averageCoefficient"@));
}

/// The name a column of Grust name `name` is reported under.
pub open spec fn renamed(names: ColumnNames, name: Seq<char>) -> Seq<char> {
    match names {
        ColumnNames::Grust => name,
        ColumnNames::Gds => alias_in(gds_aliases(), name),
    }
}

pub open spec fn renamed_all(names: ColumnNames, s: Seq<Seq<char>>) -> Seq<Seq<char>> {
    s.map_values(|n: Seq<char>| renamed(names, n))
}

/// The first name that occurs earlier in `s`, from index `j` on.
pub open spec fn first_repeat_from(s: Seq<Seq<char>>, j: int) -> Option<Seq<char>>
    decreases s.len() - j,
{
    if j < 0 || j >= s.len() {
        None
    } else if s.subrange(0, j).contains(s[j]) {
        Some(s[j])
    } else {
        first_repeat_from(s, j + 1)
    }
}

pub open spec fn first_repeat(s: Seq<Seq<char>>) -> Option<Seq<char>> {
    first_repeat_from(s, 0)
}

pub open spec fn views(s: Seq<String>) -> Seq<Seq<char>> {
    s.map_values(|x: String| x@)
}

/// The table of GDS aliases (see [`gds_aliases`]).
pub fn gds_column_aliases() -> (r: Vec<(String, String)>)
    ensures
        pair_views(r@) == gds_aliases(),
{
    let r = vec![
        (String::from_str("pathIndex"), String::from_str("index")),
        (String::from_str("iterations"), String::from_str("ranIterations")),
        (String::from_str("converged"), String::from_str("didConverge")),
        (String::from_str("levels"), String::from_str("ranLevels")),
        (String::from_str("triangles"), String::from_str("triangleCount")),
        (String::from_str("triangleCount"), String::from_str("globalTriangleCount")),
        (String::from_str("coefficient"), String::from_str("localClusteringCoefficient")),
        (String::from_str("averageCoefficient"), String::from_str("averageClusteringCoefficient")),
    ];
    assert(pair_views(r@) =~= gds_aliases());
    r
}

/// The first repeated name of `s`, if one is.
pub fn first_repeat_in(s: &Vec<String>) -> (r: Option<String>)
    ensures
        match first_repeat(views(s@)) {
            Some(d) => r matches Some(x) && x@ == d,
            None => r is None,
        },
{
    let ghost v = views(s@);
    let mut j: usize = 0;
    while j < s.len()
        invariant
            j <= s@.len(),
            v == views(s@),
            first_repeat(v) == first_repeat_from(v, j as int),
        decreases s@.len() - j,
    {
        let cj = chars_of(s[j].as_str());
        let mut i: usize = 0;
        let mut seen = false;
        while i < j
            invariant
                i <= j < s@.len(),
                v == views(s@),
                cj@ == v[j as int],
                seen ==> v.subrange(0, j as int).contains(v[j as int]),
                !seen ==> forall|k: int| 0 <= k < i ==> v[k] != v[j as int],
            decreases j - i,
        {
            let ci = chars_of(s[i].as_str());
            if !seen && eq_chars(ci.as_slice(), cj.as_slice()) {
                seen = true;
                assert(v.subrange(0, j as int)[i as int] == v[j as int]);
            }
            i = i + 1;
        }
        if seen {
            return Some(s[j].clone());
        }
        proof {
            assert forall|k: int| 0 <= k < j implies v.subrange(0, j as int)[k] != v[j as int] by {
                assert(v.subrange(0, j as int)[k] == v[k]);
            }
        }
        j = j + 1;
    }
    None
}

impl ColumnNames {
    /// `grust` or `gds`, in any case, trimmed.
    pub fn parse(text: &str) -> (r: Result<ColumnNames, NutmegError>)
        ensures
            choice(text@) == "grust"@ ==> r == Ok::<ColumnNames, NutmegError>(ColumnNames::Grust),
            choice(text@) == "gds"@ ==> r == Ok::<ColumnNames, NutmegError>(ColumnNames::Gds),
            choice(text@) != "grust"@ && choice(text@) != "gds"@ ==> (r matches Err(
                NutmegError::Plan(m),
            ) && m@ == "nutmeg: `columnNames` is `grust` or `gds`, got `"@ + choice(text@) + "`"@),
    {
        let c = choice_of(text);
        proof {
            reveal_strlit("grust");
            reveal_strlit("gds");
            assert("grust"@.len() == 5);
            assert("gds"@.len() == 3);
        }
        if spells(c.as_slice(), "grust") {
            Ok(ColumnNames::Grust)
        } else if spells(c.as_slice(), "gds") {
            Ok(ColumnNames::Gds)
        } else {
            let got = string_of(c.as_slice());
            Err(
                NutmegError::Plan(
                    join3("nutmeg: `columnNames` is `grust` or `gds`, got `", got.as_str(), "`"),
                ),
            )
        }
    }

    /// Remove the choice from a configuration, leaving Grust's options: a key
    /// matching `columnNames` in any case, whose value must be a string that
    /// [`ColumnNames::parse`] accepts. Without one, Grust's names.
    pub fn take(options: &mut Options) -> (r: Result<ColumnNames, NutmegError>)
        ensures
            final(options)@ == crate::options::take_spec(old(options)@, "columnNames"@).1,
            match crate::options::take_spec(old(options)@, "columnNames"@).0 {
                None => r == Ok::<ColumnNames, NutmegError>(ColumnNames::Grust),
                Some(crate::options::JsonView::Text(t)) => (choice(t) == "grust"@ ==> r == Ok::<
                    ColumnNames,
                    NutmegError,
                >(ColumnNames::Grust)) && (choice(t) == "gds"@ ==> r == Ok::<
                    ColumnNames,
                    NutmegError,
                >(ColumnNames::Gds)) && (choice(t) != "grust"@ && choice(t) != "gds"@
                    ==> r is Err),
                Some(_) => r matches Err(NutmegError::Plan(m)) && exists|c: Seq<char>|
                    m@ == "nutmeg: `columnNames` must be a string, got "@ + c,
            },
    {
        proof {
            reveal_strlit("grust");
            reveal_strlit("gds");
        }
        match options.take("columnNames") {
            None => Ok(ColumnNames::Grust),
            Some(v) => match &v.kind {
                JsonKind::Text(t) => ColumnNames::parse(t.as_str()),
                _ => {
                    let shown = some_debug(&v.json);
                    Err(
                        NutmegError::Plan(
                            join2("nutmeg: `columnNames` must be a string, got ", shown.as_str()),
                        ),
                    )
                },
            },
        }
    }

    /// The name a column of Grust name `name` is reported under.
    pub fn rename(self, name: &str) -> (r: String)
        ensures
            r@ == renamed(self, name@),
    {
        match self {
            ColumnNames::Grust => String::from_str(name),
            ColumnNames::Gds => {
                let aliases = gds_column_aliases();
                let want = chars_of(name);
                let mut i: usize = 0;
                assert(pair_views(aliases@).subrange(0, aliases@.len() as int) == pair_views(aliases@));
                while i < aliases.len()
                    invariant
                        self == ColumnNames::Gds,
                        i <= aliases@.len(),
                        want@ == name@,
                        alias_in(gds_aliases(), name@) == alias_in(
                            pair_views(aliases@).subrange(i as int, aliases@.len() as int),
                            name@,
                        ),
                    decreases aliases@.len() - i,
                {
                    let ghost rest = pair_views(aliases@).subrange(i as int, aliases@.len() as int);
                    let k = chars_of(aliases[i].0.as_str());
                    assert(rest[0] == (aliases@[i as int].0@, aliases@[i as int].1@));
                    if eq_chars(k.as_slice(), want.as_slice()) {
                        assert(rest[0].0 == name@);
                        assert(alias_in(rest, name@) == rest[0].1);
                        let r = aliases[i].1.clone();
                        assert(r@ == rest[0].1);
                        assert(renamed(self, name@) == alias_in(gds_aliases(), name@));
                        return r;
                    }
                    assert(rest.drop_first() == pair_views(aliases@).subrange(
                        i + 1,
                        aliases@.len() as int,
                    ));
                    i = i + 1;
                }
                String::from_str(name)
            },
        }
    }

    /// Every name renamed at once, each looked up by its Grust name, so
    /// `triangles` → `triangleCount` and `triangleCount` →
    /// `globalTriangleCount` in one result is a relabelling, not a chain. A
    /// renaming that would give two columns one name is refused, naming it.
    pub fn rename_names(self, names: &Vec<String>) -> (r: Result<Vec<String>, NutmegError>)
        ensures
            self == ColumnNames::Grust ==> (r matches Ok(out) && views(out@) == views(names@)),
            self == ColumnNames::Gds ==> match first_repeat(renamed_all(self, views(names@))) {
                None => r matches Ok(out) && views(out@) == renamed_all(self, views(names@)),
                Some(d) => r matches Err(NutmegError::Execution(m)) && m@
                    == "nutmeg: `columnNames: gds` would name two columns `"@ + d + "`"@,
            },
    {
        let mut out: Vec<String> = Vec::new();
        let mut i: usize = 0;
        while i < names.len()
            invariant
                i <= names@.len(),
                views(out@) == renamed_all(self, views(names@)).subrange(0, i as int),
            decreases names@.len() - i,
        {
            let n = self.rename(names[i].as_str());
            let ghost before = out@;
            out.push(n);
            proof {
                assert(views(out@) =~= views(before).push(n@));
                assert(renamed_all(self, views(names@)).subrange(0, i + 1) =~= renamed_all(
                    self,
                    views(names@),
                ).subrange(0, i as int).push(renamed(self, names@[i as int]@)));
            }
            i = i + 1;
        }
        assert(renamed_all(self, views(names@)).subrange(0, names@.len() as int) =~= renamed_all(
            self,
            views(names@),
        ));
        proof {
            lemma_grust_names_repeat(views(names@));
        }
        match first_repeat_in(&out) {
            None => Ok(out),
            Some(d) => {
                proof {
                    lemma_grust_names_repeat(views(names@));
                }
                if self == ColumnNames::Grust {
                    // Grust's own names are its declarations, kept as given.
                    return Ok(out);
                }
                Err(
                    NutmegError::Execution(
                        join3(
                            "nutmeg: `columnNames: gds` would name two columns `",
                            d.as_str(),
                            "`",
                        ),
                    ),
                )
            },
        }
    }
}

impl ColumnNames {
    /// `fields` with each renamed (see [`ColumnNames::rename_names`]): every
    /// column is looked up by its Grust name, so a rename is simultaneous, and
    /// a renaming that would give two columns one name is refused.
    pub fn rename_schema(self, fields: &Vec<FieldDef>) -> (r: Result<Vec<FieldDef>, NutmegError>)
        ensures
            r matches Ok(out) ==> out@.len() == fields@.len(),
            r matches Ok(out) ==> field_names(out@) == renamed_all(self, field_names(fields@)),
            r matches Ok(out) ==> forall|i: int|
                0 <= i < out@.len() ==> field_nullable(#[trigger] out@[i]) == field_nullable(fields@[i])
                    && data_type_text(out@[i]) == data_type_text(fields@[i]) && field_metadata(out@[i])
                    == field_metadata(fields@[i]),
            self == ColumnNames::Grust ==> (r matches Ok(out) && field_names(out@) == field_names(
                fields@,
            )),
            self == ColumnNames::Gds ==> match first_repeat(renamed_all(self, field_names(fields@))) {
                None => r matches Ok(out) && field_names(out@) == renamed_all(
                    self,
                    field_names(fields@),
                ),
                Some(d) => r matches Err(NutmegError::Execution(m)) && m@
                    == "nutmeg: `columnNames: gds` would name two columns `"@ + d + "`"@,
            },
    {
        let mut names: Vec<String> = Vec::new();
        let mut i: usize = 0;
        while i < fields.len()
            invariant
                i <= fields@.len(),
                views(names@) == field_names(fields@).subrange(0, i as int),
            decreases fields@.len() - i,
        {
            let info = field_info(&fields[i]);
            let ghost before = names@;
            names.push(info.name);
            proof {
                assert(views(names@) =~= views(before).push(field_name(fields@[i as int])));
                assert(field_names(fields@).subrange(0, i + 1) =~= field_names(fields@).subrange(
                    0,
                    i as int,
                ).push(field_name(fields@[i as int])));
            }
            i = i + 1;
        }
        assert(field_names(fields@).subrange(0, fields@.len() as int) =~= field_names(fields@));
        let renamed = match self.rename_names(&names) {
            Ok(n) => n,
            Err(e) => {
                return Err(e);
            },
        };
        let mut out: Vec<FieldDef> = Vec::new();
        let mut k: usize = 0;
        while k < fields.len()
            invariant
                k <= fields@.len(),
                renamed@.len() == fields@.len(),
                field_names(out@) == views(renamed@).subrange(0, k as int),
                out@.len() == k,
                forall|i: int|
                    0 <= i < k ==> field_nullable(#[trigger] out@[i]) == field_nullable(fields@[i])
                        && data_type_text(out@[i]) == data_type_text(fields@[i]) && field_metadata(out@[i])
                        == field_metadata(fields@[i]),
            decreases fields@.len() - k,
        {
            let f = with_name(&fields[k], renamed[k].as_str());
            let ghost before = out@;
            out.push(f);
            proof {
                assert(field_names(out@) =~= field_names(before).push(renamed@[k as int]@));
                assert(views(renamed@).subrange(0, k + 1) =~= views(renamed@).subrange(
                    0,
                    k as int,
                ).push(renamed@[k as int]@));
            }
            k = k + 1;
        }
        assert(views(renamed@).subrange(0, fields@.len() as int) =~= views(renamed@));
        proof {
            lemma_grust_names_repeat(field_names(fields@));
        }
        Ok(out)
    }

    /// `batch` with its columns renamed (see [`ColumnNames::rename_schema`]);
    /// under Grust's names, `batch` itself.
    pub fn rename_batch(self, batch: Batch) -> (r: Result<Batch, NutmegError>)
        ensures
            self == ColumnNames::Grust ==> r == Ok::<Batch, NutmegError>(batch),
            r is Err ==> r->Err_0 is Execution,
            r matches Ok(b) ==> batch_rows(b) == batch_rows(batch) && batch_fields(b) == renamed_all(
                self,
                batch_fields(batch),
            ),
            self == ColumnNames::Gds ==> match first_repeat(renamed_all(self, batch_fields(batch))) {
                None => true,
                Some(d) => r matches Err(NutmegError::Execution(m)) && m@
                    == "nutmeg: `columnNames: gds` would name two columns `"@ + d + "`"@,
            },
    {
        if self == ColumnNames::Grust {
            proof {
                lemma_grust_names_repeat(batch_fields(batch));
            }
            return Ok(batch);
        }
        let fields = field_defs(&batch);
        let renamed = match self.rename_schema(&fields) {
            Ok(f) => f,
            Err(e) => {
                return Err(e);
            },
        };
        match reschema(&batch, renamed) {
            Ok(b) => Ok(b),
            Err(m) => Err(NutmegError::Execution(m)),
        }
    }
}

proof fn lemma_grust_names_repeat(s: Seq<Seq<char>>)
    ensures
        renamed_all(ColumnNames::Grust, s) == s,
{
    assert(renamed_all(ColumnNames::Grust, s) =~= s);
}

/// `Some(value)` as `Option`'s `Debug` shows it.
#[verifier::external_body]
fn some_debug(json: &serde_json::Value) -> String {
    format!("{:?}", Some(json))
}

} // verus!
