//! Staged rows in the grust-arrow layout: which input columns hold the
//! structural fields, and how every other column a kernel could read becomes
//! a `property.*` column with its `present.*` beside it.
use vstd::prelude::*;
use vstd::string::*;

use crate::catalog::{starts_with, views};
use crate::error::{join2, join3, NutmegError};
use crate::frame::{
    Batch, Column, ColumnType, FieldDef, batch_column, batch_fields, column_texts, named_column, utf8_column, column_kind, batch_rows, boolean_field, cast_float64, cast_int64, cast_large_utf8, cast_utf8, column_len, column_type, columns_of, copy_field, field_defs, field_for, field_info, field_name, field_names, make_batch, null_text, num_rows, present, repeated_text, share_column, text_field,
};
use crate::nodes::texts_named;
use crate::order::{index_of, is_presence};
use crate::text::chars_of;

verus! {

/// Which input columns hold the structural fields. Anything unset is found
/// by name: the grust-arrow names first, then grust-sail's table columns.
#[derive(Debug)]
pub struct ColumnMapping {
    pub id: Option<String>,
    pub label: Option<String>,
    pub source: Option<String>,
    pub target: Option<String>,
    pub edge_type: Option<String>,
    pub edge_id: Option<String>,
}

pub open spec fn opt_text(o: Option<String>) -> Option<Seq<char>> {
    match o {
        Some(s) => Some(s@),
        None => None,
    }
}

/// The option keys that name a mapping's columns, each with the field it
/// sets: 0 the node id, 1 the node label, 2 the edge source, 3 the edge
/// target, 4 the edge type, 5 the edge id.
pub open spec fn mapping_slot(key: Seq<char>) -> Option<int> {
    if key == "idcolumn"@ {
        Some(0)
    } else if key == "labelcolumn"@ {
        Some(1)
    } else if key == "sourcecolumn"@ {
        Some(2)
    } else if key == "targetcolumn"@ {
        Some(3)
    } else if key == "typecolumn"@ {
        Some(4)
    } else if key == "edgeidcolumn"@ {
        Some(5)
    } else {
        None
    }
}

impl ColumnMapping {
    /// The six fields, in the order of [`mapping_slot`].
    pub open spec fn slots(&self) -> Seq<Option<Seq<char>>> {
        seq![
            opt_text(self.id),
            opt_text(self.label),
            opt_text(self.source),
            opt_text(self.target),
            opt_text(self.edge_type),
            opt_text(self.edge_id),
        ]
    }

    /// No column named: every one is found by name.
    pub fn new() -> (r: ColumnMapping)
        ensures
            forall|i: int| 0 <= i < 6 ==> r.slots()[i] is None,
    {
        ColumnMapping {
            id: None,
            label: None,
            source: None,
            target: None,
            edge_type: None,
            edge_id: None,
        }
    }

    /// A copy.
    pub fn duplicate(&self) -> (r: ColumnMapping)
        ensures
            r.slots() == self.slots(),
    {
        ColumnMapping {
            id: copy_opt(&self.id),
            label: copy_opt(&self.label),
            source: copy_opt(&self.source),
            target: copy_opt(&self.target),
            edge_type: copy_opt(&self.edge_type),
            edge_id: copy_opt(&self.edge_id),
        }
    }

    /// Set one field from a lowercase option key; false when the key names no
    /// mapping field, which leaves the mapping as it was.
    pub fn set(&mut self, key: &str, value: String) -> (r: bool)
        ensures
            r == mapping_slot(key@) is Some,
            match mapping_slot(key@) {
                Some(i) => final(self).slots() == old(self).slots().update(i, Some(value@)),
                None => final(self).slots() == old(self).slots(),
            },
            key@ == "idcolumn"@ || key@ == "labelcolumn"@ || key@ == "sourcecolumn"@ || key@
                == "targetcolumn"@ || key@ == "typecolumn"@ || key@ == "edgeidcolumn"@ ==> r,
            key@ == "idcolumn"@ ==> opt_text(final(self).id) == Some(value@)
                && final(self).label == old(self).label
                && final(self).source == old(self).source
                && final(self).target == old(self).target
                && final(self).edge_type == old(self).edge_type
                && final(self).edge_id == old(self).edge_id,
            key@ == "labelcolumn"@ ==> opt_text(final(self).label) == Some(value@)
                && final(self).id == old(self).id
                && final(self).source == old(self).source
                && final(self).target == old(self).target
                && final(self).edge_type == old(self).edge_type
                && final(self).edge_id == old(self).edge_id,
            key@ == "sourcecolumn"@ ==> opt_text(final(self).source) == Some(value@)
                && final(self).id == old(self).id
                && final(self).label == old(self).label
                && final(self).target == old(self).target
                && final(self).edge_type == old(self).edge_type
                && final(self).edge_id == old(self).edge_id,
            key@ == "targetcolumn"@ ==> opt_text(final(self).target) == Some(value@)
                && final(self).id == old(self).id
                && final(self).label == old(self).label
                && final(self).source == old(self).source
                && final(self).edge_type == old(self).edge_type
                && final(self).edge_id == old(self).edge_id,
            key@ == "typecolumn"@ ==> opt_text(final(self).edge_type) == Some(value@)
                && final(self).id == old(self).id
                && final(self).label == old(self).label
                && final(self).source == old(self).source
                && final(self).target == old(self).target
                && final(self).edge_id == old(self).edge_id,
            key@ == "edgeidcolumn"@ ==> opt_text(final(self).edge_id) == Some(value@)
                && final(self).id == old(self).id
                && final(self).label == old(self).label
                && final(self).source == old(self).source
                && final(self).target == old(self).target
                && final(self).edge_type == old(self).edge_type,
            key@ != "idcolumn"@
                && key@ != "labelcolumn"@
                && key@ != "sourcecolumn"@
                && key@ != "targetcolumn"@
                && key@ != "typecolumn"@
                && key@ != "edgeidcolumn"@
                ==> !r
                && final(self).id == old(self).id
                && final(self).label == old(self).label
                && final(self).source == old(self).source
                && final(self).target == old(self).target
                && final(self).edge_type == old(self).edge_type
                && final(self).edge_id == old(self).edge_id,
    {
        let k = chars_of(key);
        proof {
            reveal_strlit("idcolumn");
            reveal_strlit("labelcolumn");
            reveal_strlit("sourcecolumn");
            reveal_strlit("targetcolumn");
            reveal_strlit("typecolumn");
            reveal_strlit("edgeidcolumn");
            assert("idcolumn"@.len() != "labelcolumn"@.len());
            assert("idcolumn"@.len() != "sourcecolumn"@.len());
            assert("idcolumn"@.len() != "targetcolumn"@.len());
            assert("idcolumn"@.len() != "typecolumn"@.len());
            assert("idcolumn"@.len() != "edgeidcolumn"@.len());
            assert("labelcolumn"@.len() != "sourcecolumn"@.len());
            assert("labelcolumn"@.len() != "targetcolumn"@.len());
            assert("labelcolumn"@.len() != "typecolumn"@.len());
            assert("labelcolumn"@.len() != "edgeidcolumn"@.len());
            assert("sourcecolumn"@[0] != "targetcolumn"@[0]);
            assert("sourcecolumn"@.len() != "typecolumn"@.len());
            assert("sourcecolumn"@[0] != "edgeidcolumn"@[0]);
            assert("targetcolumn"@.len() != "typecolumn"@.len());
            assert("targetcolumn"@[0] != "edgeidcolumn"@[0]);
            assert("typecolumn"@.len() != "edgeidcolumn"@.len());
        }
        let ghost before = old(self).slots();
        if crate::columns::spells(k.as_slice(), "idcolumn") {
            self.id = Some(value);
            assert(self.slots() =~= before.update(0, Some(value@)));
            true
        } else if crate::columns::spells(k.as_slice(), "labelcolumn") {
            self.label = Some(value);
            assert(self.slots() =~= before.update(1, Some(value@)));
            true
        } else if crate::columns::spells(k.as_slice(), "sourcecolumn") {
            self.source = Some(value);
            assert(self.slots() =~= before.update(2, Some(value@)));
            true
        } else if crate::columns::spells(k.as_slice(), "targetcolumn") {
            self.target = Some(value);
            assert(self.slots() =~= before.update(3, Some(value@)));
            true
        } else if crate::columns::spells(k.as_slice(), "typecolumn") {
            self.edge_type = Some(value);
            assert(self.slots() =~= before.update(4, Some(value@)));
            true
        } else if crate::columns::spells(k.as_slice(), "edgeidcolumn") {
            self.edge_id = Some(value);
            assert(self.slots() =~= before.update(5, Some(value@)));
            true
        } else {
            false
        }
    }
}

fn copy_opt(o: &Option<String>) -> (r: Option<String>)
    ensures
        opt_text(r) == opt_text(*o),
{
    match o {
        Some(s) => Some(s.clone()),
        None => None,
    }
}

/// The first of `candidates` that `names` holds, with its index there.
pub open spec fn first_found(names: Seq<Seq<char>>, candidates: Seq<Seq<char>>) -> Option<
    (int, Seq<char>),
>
    decreases candidates.len(),
{
    if candidates.len() == 0 {
        None
    } else {
        match index_of(names, candidates[0]) {
            Some(i) => Some((i, candidates[0])),
            None => first_found(names, candidates.drop_first()),
        }
    }
}

/// The column a structural field is read from: the one named explicitly,
/// else the first of `candidates` present. `None` where neither is and the
/// field is optional.
pub open spec fn picked(
    names: Seq<Seq<char>>,
    explicit: Option<Seq<char>>,
    candidates: Seq<Seq<char>>,
    required: bool,
) -> Option<Option<(int, Seq<char>)>> {
    match explicit {
        Some(name) => match index_of(names, name) {
            Some(i) => Some(Some((i, name))),
            None => None,
        },
        None => match first_found(names, candidates) {
            Some(found) => Some(Some(found)),
            None => if required {
                None
            } else {
                Some(None)
            },
        },
    }
}

fn find(names: &Vec<String>, name: &str) -> (r: Option<usize>)
    ensures
        match index_of(views(names@), name@) {
            Some(i) => r matches Some(x) && x as int == i,
            None => r is None,
        },
{
    let want = chars_of(name);
    let ghost all = views(names@);
    let mut i: usize = 0;
    while i < names.len()
        invariant
            i <= names@.len(),
            all == views(names@),
            want@ == name@,
            index_of(all.subrange(0, i as int), name@) is None,
        decreases names@.len() - i,
    {
        let got = chars_of(names[i].as_str());
        let ghost p = all.subrange(0, i + 1);
        assert(p.drop_last() == all.subrange(0, i as int));
        if crate::text::eq_chars(got.as_slice(), want.as_slice()) {
            proof {
                assert(p.last() == name@);
                assert(index_of(p, name@) == Some(i as int));
                lemma_prefix(all, name@, i + 1, i as int);
            }
            return Some(i);
        }
        i = i + 1;
    }
    assert(all.subrange(0, names@.len() as int) == all);
    None
}

proof fn lemma_prefix(names: Seq<Seq<char>>, name: Seq<char>, n: int, x: int)
    requires
        0 < n <= names.len(),
        index_of(names.subrange(0, n), name) == Some(x),
    ensures
        index_of(names, name) == Some(x),
    decreases names.len() - n,
{
    if n < names.len() {
        let p = names.subrange(0, n + 1);
        assert(p.drop_last() == names.subrange(0, n));
        assert(index_of(p, name) == Some(x));
        lemma_prefix(names, name, n + 1, x);
    } else {
        assert(names.subrange(0, n) == names);
    }
}

/// Which of the columns `names` a structural field is read from (see
/// [`picked`]), with its index and name; a column named explicitly and not
/// found, or a required field found under no candidate, is refused, naming
/// `what`.
pub fn pick_name(
    names: &Vec<String>,
    explicit: &Option<String>,
    candidates: &Vec<&str>,
    what: &str,
    required: bool,
) -> (r: Result<Option<(usize, String)>, NutmegError>)
    ensures
        match picked(
            views(names@),
            opt_text(*explicit),
            candidates@.map_values(|s: &str| s@),
            required,
        ) {
            Some(Some((i, n))) => r matches Ok(Some((j, m))) && j as int == i && m@ == n,
            Some(None) => r matches Ok(None),
            None => r matches Err(NutmegError::Plan(_)),
        },
{
    if let Some(name) = explicit {
        return match find(names, name.as_str()) {
            Some(i) => Ok(Some((i, name.clone()))),
            None => {
                let mut m = String::from_str("nutmeg: ");
                m.append(what);
                m.append(" column `");
                m.append(name.as_str());
                m.append("` not found");
                Err(NutmegError::Plan(m))
            },
        };
    }
    assert(opt_text(*explicit) is None);
    let ghost cands = candidates@.map_values(|s: &str| s@);
    assert(cands.subrange(0, cands.len() as int) == cands);
    let mut c: usize = 0;
    while c < candidates.len()
        invariant
            c <= candidates@.len(),
            opt_text(*explicit) is None,
            cands == candidates@.map_values(|s: &str| s@),
            first_found(views(names@), cands) == first_found(
                views(names@),
                cands.subrange(c as int, cands.len() as int),
            ),
        decreases candidates@.len() - c,
    {
        let ghost rest = cands.subrange(c as int, cands.len() as int);
        assert(rest[0] == candidates@[c as int]@);
        assert(rest.drop_first() == cands.subrange(c + 1, cands.len() as int));
        let candidate: &str = candidates[c];
        if let Some(i) = find(names, candidate) {
            assert(rest.len() > 0);
            assert(index_of(views(names@), rest[0]) == Some(i as int));
            assert(first_found(views(names@), rest) == Some((i as int, rest[0])));
            let found = String::from_str(candidate);
            assert(found@ == rest[0]);
            assert(picked(views(names@), opt_text(*explicit), cands, required) == Some(
                Some((i as int, rest[0])),
            ));
            return Ok(Some((i, found)));
        }
        c = c + 1;
    }
    if required {
        let mut shown: Vec<String> = Vec::new();
        let mut k: usize = 0;
        while k < candidates.len()
            invariant
                k <= candidates@.len(),
            decreases candidates@.len() - k,
        {
            shown.push(String::from_str(candidates[k]));
            k = k + 1;
        }
        let mut m = String::from_str("nutmeg: no ");
        m.append(what);
        m.append(" column; looked for ");
        m.append(crate::source::debug_list(&shown).as_str());
        m.append(" in ");
        m.append(crate::source::debug_list(names).as_str());
        m.append("; name it with an option");
        return Err(NutmegError::Plan(m));
    }
    Ok(None)
}

/// The names of `batch`'s fields, in order.
pub fn batch_names(batch: &Batch) -> (r: Vec<String>)
    ensures
        views(r@) == batch_fields(*batch),
{
    let defs = field_defs(batch);
    let mut names: Vec<String> = Vec::new();
    let mut i: usize = 0;
    while i < defs.len()
        invariant
            i <= defs@.len(),
            views(names@) == field_names(defs@).subrange(0, i as int),
        decreases defs@.len() - i,
    {
        let ghost before = names@;
        names.push(field_info(&defs[i]).name);
        proof {
            assert(views(names@) =~= views(before).push(field_name(defs@[i as int])));
            assert(field_names(defs@).subrange(0, i + 1) =~= field_names(defs@).subrange(
                0,
                i as int,
            ).push(field_name(defs@[i as int])));
        }
        i = i + 1;
    }
    assert(field_names(defs@).subrange(0, defs@.len() as int) =~= field_names(defs@));
    names
}

/// Columns `from..` of `columns` each have `rows` rows.
pub open spec fn all_of_length(columns: Seq<Column>, from: int, rows: usize) -> bool {
    forall|i: int| from <= i < columns.len() ==> #[trigger] column_len(columns[i]) == rows
}

/// Which column kinds become properties: edges carry weights, which are
/// numbers; nodes also carry categories and vectors.
#[derive(Clone, Copy, Debug, PartialEq, Eq, Structural)]
pub enum Lift {
    Edge,
    Node,
}

/// What becomes of one input column that holds no structural field.
#[derive(Clone, Copy, Debug, PartialEq, Eq, Structural)]
pub enum LiftAction {
    /// Dropped: a kind the part carries no property of.
    Skip,
    /// Already a `property.*` or `present.*` column: kept as it is.
    Pass,
    /// An integer property, as Int64.
    Integer,
    /// Another number, as Float64.
    Number,
    /// A node category, as Utf8.
    Category,
    /// A node vector, kept as it is.
    Vector,
}

/// Whether `name` starts with `property.`.
pub open spec fn is_property(name: Seq<char>) -> bool {
    name.len() >= 9 && name.subrange(0, 9) == "property."@
}

/// What becomes of a column named `name` of type `kind` that holds no
/// structural field.
pub open spec fn lift_action(name: Seq<char>, kind: ColumnType, lift: Lift) -> LiftAction {
    if is_property(name) || is_presence(name) {
        LiftAction::Pass
    } else if kind.integer {
        LiftAction::Integer
    } else if kind.numeric {
        LiftAction::Number
    } else if lift == Lift::Node && kind.text {
        LiftAction::Category
    } else if lift == Lift::Node && kind.fixed_list {
        LiftAction::Vector
    } else {
        LiftAction::Skip
    }
}

/// See [`lift_action`].
pub fn lift_action_of(name: &String, kind: ColumnType, lift: Lift) -> (r: LiftAction)
    ensures
        r == lift_action(name@, kind, lift),
{
    let c = chars_of(name.as_str());
    let property = chars_of("property.");
    let presence = chars_of("present.");
    proof {
        reveal_strlit("property.");
        reveal_strlit("present.");
        assert("property."@.len() == 9);
        assert("present."@.len() == 8);
    }
    if starts_with(c.as_slice(), property.as_slice()) || starts_with(
        c.as_slice(),
        presence.as_slice(),
    ) {
        LiftAction::Pass
    } else if kind.integer {
        LiftAction::Integer
    } else if kind.numeric {
        LiftAction::Number
    } else if lift == Lift::Node && kind.text {
        LiftAction::Category
    } else if lift == Lift::Node && kind.fixed_list {
        LiftAction::Vector
    } else {
        LiftAction::Skip
    }
}

/// A failure of an Arrow call while renaming rows.
fn arrow_failure(message: String) -> (e: NutmegError)
    ensures
        e == NutmegError::Execution(message),
{
    NutmegError::Execution(message)
}

/// The names [`lift_properties`] appends for the first `n` columns of
/// `batch`: none for a column named in `used` or of a kind `lift` does not
/// admit; its own name for a `property.*`/`present.*` column; else
/// `property.c` and `present.c`.
pub open spec fn lifted_names(batch: Batch, used: Seq<Seq<char>>, lift: Lift, n: nat) -> Seq<Seq<char>>
    decreases n,
{
    if n == 0 {
        Seq::empty()
    } else {
        let before = lifted_names(batch, used, lift, (n - 1) as nat);
        let name = batch_fields(batch)[n - 1];
        if used.contains(name) {
            before
        } else {
            match lift_action(name, column_kind(batch_column(batch, n - 1)), lift) {
                LiftAction::Skip => before,
                LiftAction::Pass => before.push(name),
                _ => before.push("property."@ + name).push("present."@ + name),
            }
        }
    }
}

/// Append `property.c` + `present.c` for every column `c` not in `used` of a
/// kind `lift` admits, and pass `property.*`/`present.*` columns through.
/// Returns the names of the columns appended.
pub fn lift_properties(
    batch: &Batch,
    used: &Vec<String>,
    lift: Lift,
    fields: &mut Vec<FieldDef>,
    columns: &mut Vec<Column>,
) -> (r: Result<Vec<String>, NutmegError>)
    requires
        old(fields)@.len() == old(columns)@.len(),
    ensures
        r matches Ok(added) ==> {
            &&& views(added@) == lifted_names(*batch, views(used@), lift, batch_fields(*batch).len())
            &&& field_names(final(fields)@) == field_names(old(fields)@) + views(added@)
            &&& final(columns)@.len() == final(fields)@.len()
            &&& final(columns)@.len() >= old(columns)@.len()
            &&& final(columns)@.subrange(0, old(columns)@.len() as int) == old(columns)@
            &&& all_of_length(final(columns)@, old(columns)@.len() as int, batch_rows(*batch))
        },
        r is Err ==> r->Err_0 is Execution,
{
    let defs = field_defs(batch);
    let all = columns_of(batch);
    let mut added: Vec<String> = Vec::new();
    let mut i: usize = 0;
    while i < defs.len() && i < all.len()
        invariant
            field_names(fields@) == field_names(old(fields)@) + views(added@),
            columns@.len() == fields@.len(),
            columns@.len() >= old(columns)@.len(),
            columns@.subrange(0, old(columns)@.len() as int) == old(columns)@,
            all_of_length(columns@, old(columns)@.len() as int, batch_rows(*batch)),
            all@.len() == batch_fields(*batch).len(),
            forall|k: int| 0 <= k < all@.len() ==> #[trigger] column_len(all@[k]) == batch_rows(*batch),
            forall|k: int| 0 <= k < all@.len() ==> #[trigger] all@[k] == batch_column(*batch, k),
            field_names(defs@) == batch_fields(*batch),
            i <= all@.len(),
            views(added@) == lifted_names(*batch, views(used@), lift, i as nat),
        decreases defs@.len() - i,
    {
        let ghost fields0 = fields@;
        let ghost columns0 = columns@;
        let ghost added0 = added@;
        let name = field_info(&defs[i]).name;
        let column = &all[i];
        proof {
            assert(name@ == batch_fields(*batch)[i as int]);
            crate::order::lemma_index_of_contains(views(used@), name@);
        }
        if find(used, name.as_str()).is_none() {
            match lift_action_of(&name, column_type(column), lift) {
                LiftAction::Skip => {},
                LiftAction::Pass => {
                    fields.push(copy_field(&defs[i]));
                    columns.push(share_column(column));
                    added.push(name.clone());
                    proof {
                        assert(field_names(fields@) =~= field_names(fields0).push(
                            field_name(defs@[i as int]),
                        ));
                        assert(views(added@) =~= views(added0).push(name@));
                        assert(columns@.subrange(0, old(columns)@.len() as int) =~= columns0.subrange(
                            0,
                            old(columns)@.len() as int,
                        ));
                    }
                },
                action => {
                    let cast = match action {
                        LiftAction::Integer => cast_int64(column),
                        LiftAction::Number => cast_float64(column),
                        LiftAction::Category => cast_utf8(column),
                        _ => Ok(share_column(column)),
                    };
                    let values = match cast {
                        Ok(v) => v,
                        Err(m) => {
                            return Err(arrow_failure(m));
                        },
                    };
                    let shown = match present(column) {
                        Ok(p) => p,
                        Err(m) => {
                            return Err(arrow_failure(m));
                        },
                    };
                    let property = join2("property.", name.as_str());
                    let presence = join2("present.", name.as_str());
                    fields.push(field_for(property.as_str(), &values, true));
                    columns.push(values);
                    fields.push(boolean_field(presence.as_str(), false));
                    columns.push(shown);
                    let ghost (p, q) = (property@, presence@);
                    added.push(property);
                    added.push(presence);
                    proof {
                        assert(field_names(fields@) =~= field_names(fields0).push(p).push(q));
                        assert(views(added@) =~= views(added0).push(p).push(q));
                        assert(columns@.subrange(0, old(columns)@.len() as int) =~= columns0.subrange(
                            0,
                            old(columns)@.len() as int,
                        ));
                    }
                },
            }
        }
        i = i + 1;
    }
    Ok(added)
}

/// A picked column, as Utf8.
fn text_of(column: &Column) -> (r: Result<Column, NutmegError>)
    ensures
        r is Err ==> r->Err_0 is Execution,
        r matches Ok(c) ==> column_len(c) == column_len(*column),
        utf8_column(*column) ==> r is Ok,
        r matches Ok(c) ==> (utf8_column(*column) ==> column_texts(c) == column_texts(*column)),
{
    // Any other type is displayed as LargeUtf8 first, whose `i64` offsets
    // cannot overflow; narrowing them to Utf8's is refused where they do
    // not fit.
    let text = if column_type(column).text {
        share_column(column)
    } else {
        match cast_large_utf8(column) {
            Ok(c) => c,
            Err(m) => {
                return Err(arrow_failure(m));
            },
        }
    };
    match cast_utf8(&text) {
        Ok(c) => Ok(c),
        Err(m) => Err(arrow_failure(m)),
    }
}

/// Which column the node part's structural field `k` (`node_id`, `label`)
/// is read from (see [`picked`]); `None` where the pick is refused.
pub open spec fn node_pick(batch: Batch, mapping: ColumnMapping, k: int) -> Option<Option<(int, Seq<char>)>> {
    if k == 0 {
        picked(batch_fields(batch), opt_text(mapping.id), seq!["node_id"@, "id"@], true)
    } else {
        picked(batch_fields(batch), opt_text(mapping.label), seq!["label"@], false)
    }
}

/// Which column the edge part's structural field `k` (`source`, `target`,
/// `label`, `edge_id`) is read from (see [`picked`]); `None` where the pick
/// is refused.
pub open spec fn edge_pick(batch: Batch, mapping: ColumnMapping, k: int) -> Option<Option<(int, Seq<char>)>> {
    if k == 0 {
        picked(batch_fields(batch), opt_text(mapping.source), seq!["source"@, "src_id"@, "src"@], true)
    } else if k == 1 {
        picked(batch_fields(batch), opt_text(mapping.target), seq!["target"@, "dst_id"@, "dst"@], true)
    } else if k == 2 {
        picked(batch_fields(batch), opt_text(mapping.edge_type), seq!["label"@, "edge_type"@, "type"@], false)
    } else {
        picked(batch_fields(batch), opt_text(mapping.edge_id), seq!["edge_id"@, "id"@], false)
    }
}

/// The name a pick found, if it found one.
pub open spec fn pick_names(p: Option<Option<(int, Seq<char>)>>) -> Seq<Seq<char>> {
    match p {
        Some(Some((_, n))) => seq![n],
        _ => Seq::empty(),
    }
}

/// The columns an edge batch's structural fields are read from, which are
/// not lifted as properties.
pub open spec fn edge_used(batch: Batch, mapping: ColumnMapping) -> Seq<Seq<char>> {
    pick_names(edge_pick(batch, mapping, 0)) + pick_names(edge_pick(batch, mapping, 1)) + pick_names(
        edge_pick(batch, mapping, 2),
    ) + pick_names(edge_pick(batch, mapping, 3))
}

/// The columns a node batch's structural fields are read from.
pub open spec fn node_used(batch: Batch, mapping: ColumnMapping) -> Seq<Seq<char>> {
    pick_names(node_pick(batch, mapping, 0)) + pick_names(node_pick(batch, mapping, 1))
}

/// The names of the node part's structural columns.
pub open spec fn node_layout() -> Seq<Seq<char>> {
    seq!["node_id"@, "label"@]
}

/// The names of the edge part's structural columns.
pub open spec fn edge_layout() -> Seq<Seq<char>> {
    seq!["source"@, "target"@, "label"@, "edge_id"@]
}

/// Rename node rows into the grust-arrow layout: `node_id`, `label`, and for
/// every other column `c` a kernel could read as a node property, the pair
/// `property.c` and `present.c` (see [`lift_action`]). The id is read from
/// the mapping's `id`, else `node_id`, else `id`, and is required; the label
/// from the mapping's `label`, else `label`, and is empty where there is
/// none.
pub fn normalize_nodes(batch: &Batch, mapping: &ColumnMapping) -> (r: Result<Batch, NutmegError>)
    ensures
        r is Err ==> r->Err_0 is Plan || r->Err_0 is Execution || r->Err_0 is Internal,
        r matches Ok(b) ==> batch_rows(b) == batch_rows(*batch) && batch_fields(b).subrange(0, 2)
            == node_layout(),
        r matches Ok(b) ==> batch_fields(b) == node_layout() + lifted_names(
            *batch,
            node_used(*batch, *mapping),
            Lift::Node,
            batch_fields(*batch).len(),
        ),
        node_pick(*batch, *mapping, 0) is None || node_pick(*batch, *mapping, 1) is None ==> r matches Err(
            NutmegError::Plan(_),
        ),
        r matches Ok(b) ==> (node_pick(*batch, *mapping, 0) matches Some(Some((i, _))) ==> (utf8_column(
            batch_column(*batch, i),
        ) ==> texts_named(b, "node_id"@) == column_texts(batch_column(*batch, i)))),
        r matches Ok(b) ==> (node_pick(*batch, *mapping, 1) matches Some(Some((i, _))) ==> (utf8_column(
            batch_column(*batch, i),
        ) ==> texts_named(b, "label"@) == column_texts(batch_column(*batch, i)))),
        r matches Ok(b) ==> (node_pick(*batch, *mapping, 1) matches Some(None) ==> texts_named(b, "label"@)
            == Some(Seq::new(batch_rows(*batch) as nat, |i: int| Some(""@)))),
{
    let names = batch_names(batch);
    let rows = num_rows(batch);
    let all = columns_of(batch);
    let id_names = vec!["node_id", "id"];
    let label_names = vec!["label"];
    assert(id_names@.map_values(|s: &str| s@) =~= seq!["node_id"@, "id"@]);
    assert(label_names@.map_values(|s: &str| s@) =~= seq!["label"@]);
    let id = match pick_name(&names, &mapping.id, &id_names, "node id", true) {
        Ok(Some(found)) => found,
        Ok(None) => {
            return Err(NutmegError::Internal(String::from_str("nutmeg: a required column was not picked")));
        },
        Err(e) => {
            return Err(e);
        },
    };
    let label = match pick_name(&names, &mapping.label, &label_names, "node label", false) {
        Ok(found) => found,
        Err(e) => {
            return Err(e);
        },
    };
    let mut fields: Vec<FieldDef> = vec![text_field("node_id", true), text_field("label", true)];
    assert(field_names(fields@) =~= node_layout());
    let mut columns: Vec<Column> = Vec::new();
    if id.0 >= all.len() {
        return Err(NutmegError::Internal(String::from_str("nutmeg: a picked column is missing")));
    }
    match text_of(&all[id.0]) {
        Ok(c) => columns.push(c),
        Err(e) => {
            return Err(e);
        },
    }
    let mut used: Vec<String> = vec![id.1];
    match label {
        Some((index, name)) => {
            if index >= all.len() {
                return Err(NutmegError::Internal(String::from_str("nutmeg: a picked column is missing")));
            }
            match text_of(&all[index]) {
                Ok(c) => columns.push(c),
                Err(e) => {
                    return Err(e);
                },
            }
            used.push(name);
        },
        None => {
            proof {
                reveal_strlit("");
                assert(crate::text::utf8_len(""@) == 0);
                assert(crate::text::utf8_len(""@) * rows == 0);
            }
            columns.push(repeated_text("", rows))
        },
    }
    assert(views(used@) =~= node_used(*batch, *mapping));
    assert(all_of_length(columns@, 0, batch_rows(*batch)));
    let ghost before = columns@;
    let _added = match lift_properties(batch, &used, Lift::Node, &mut fields, &mut columns) {
        Ok(a) => a,
        Err(e) => {
            return Err(e);
        },
    };
    proof {
        assert(before.len() > 0);
        assert(columns@.subrange(0, before.len() as int)[0] == columns@[0]);
        assert(columns@[0] == before[0]);
        assert(field_names(fields@).subrange(0, 2) =~= node_layout());
        assert(field_name(fields@[0]) == "node_id"@);
        assert(columns@.subrange(0, before.len() as int)[1] == columns@[1]);
        assert(columns@[1] == before[1]);
        assert(field_name(fields@[1]) == "label"@);
        reveal_strlit("node_id");
        reveal_strlit("label");
        assert("node_id"@[0] != "label"@[0]);
    }
    let ghost made_fields = fields@;
    let ghost made = columns@;
    match make_batch(fields, columns) {
        Ok(b) => {
            assert(named_column(b, field_name(made_fields[0])) == Some(made[0]));
            assert(forall|j: int| 0 <= j < 1 ==> #[trigger] field_name(made_fields[j]) != field_name(made_fields[1]));
            assert(named_column(b, field_name(made_fields[1])) == Some(made[1]));
            Ok(b)
        },
        Err(m) => Err(arrow_failure(m)),
    }
}

/// A picked column as Utf8, or, where none was picked, `absent`.
fn text_or(
    all: &Vec<Column>,
    found: &Option<(usize, String)>,
    absent: Column,
) -> (r: Result<Column, NutmegError>)
    ensures
        r is Err ==> r->Err_0 is Execution || r->Err_0 is Internal,
        r matches Ok(c) ==> match found {
            Some((index, _)) => index < all@.len() && column_len(c) == column_len(all@[index as int]),
            None => c == absent,
        },
        found matches Some((index, _)) ==> (index < all@.len() && utf8_column(all@[index as int]) ==> r is Ok),
        r matches Ok(c) ==> (found matches Some((index, _)) ==> (index < all@.len() && utf8_column(
            all@[index as int],
        ) ==> column_texts(c) == column_texts(all@[index as int]))),
{
    match found {
        Some((index, _)) => {
            if *index >= all.len() {
                return Err(NutmegError::Internal(String::from_str("nutmeg: a picked column is missing")));
            }
            text_of(&all[*index])
        },
        None => Ok(absent),
    }
}

/// Rename edge rows into the grust-arrow layout: `source`, `target`,
/// `label`, `edge_id`, and for every other numeric column `c` the pair
/// `property.c` (Int64 or Float64) and `present.c`, so `weightProperty: "c"`
/// selects it. The source is read from the mapping's `source`, else
/// `source`, `src_id` or `src`; the target from `target`, `dst_id` or `dst`;
/// both are required. The type is read from `label`, `edge_type` or `type`,
/// empty where there is none; the id from `edge_id` or `id`, null where there
/// is none.
pub fn normalize_edges(batch: &Batch, mapping: &ColumnMapping) -> (r: Result<Batch, NutmegError>)
    ensures
        r is Err ==> r->Err_0 is Plan || r->Err_0 is Execution || r->Err_0 is Internal,
        r matches Ok(b) ==> batch_rows(b) == batch_rows(*batch) && batch_fields(b).subrange(0, 4)
            == edge_layout(),
        r matches Ok(b) ==> batch_fields(b) == edge_layout() + lifted_names(
            *batch,
            edge_used(*batch, *mapping),
            Lift::Edge,
            batch_fields(*batch).len(),
        ),
        edge_pick(*batch, *mapping, 0) is None || edge_pick(*batch, *mapping, 1) is None || edge_pick(
            *batch,
            *mapping,
            2,
        ) is None || edge_pick(*batch, *mapping, 3) is None ==> r matches Err(NutmegError::Plan(_)),
        r matches Ok(b) ==> forall|k: int|
            0 <= k < 4 ==> (#[trigger] edge_pick(*batch, *mapping, k) matches Some(Some((i, _))) ==> (utf8_column(
                batch_column(*batch, i),
            ) ==> texts_named(b, edge_layout()[k]) == column_texts(batch_column(*batch, i)))),
        r matches Ok(b) ==> (edge_pick(*batch, *mapping, 2) matches Some(None) ==> texts_named(b, "label"@)
            == Some(Seq::new(batch_rows(*batch) as nat, |i: int| Some(""@)))),
        r matches Ok(b) ==> (edge_pick(*batch, *mapping, 3) matches Some(None) ==> texts_named(b, "edge_id"@)
            == Some(Seq::new(batch_rows(*batch) as nat, |i: int| None::<Seq<char>>))),
{
    let names = batch_names(batch);
    let rows = num_rows(batch);
    let all = columns_of(batch);
    let source_names = vec!["source", "src_id", "src"];
    let target_names = vec!["target", "dst_id", "dst"];
    let label_names = vec!["label", "edge_type", "type"];
    let id_names = vec!["edge_id", "id"];
    assert(source_names@.map_values(|s: &str| s@) =~= seq!["source"@, "src_id"@, "src"@]);
    assert(target_names@.map_values(|s: &str| s@) =~= seq!["target"@, "dst_id"@, "dst"@]);
    assert(label_names@.map_values(|s: &str| s@) =~= seq!["label"@, "edge_type"@, "type"@]);
    assert(id_names@.map_values(|s: &str| s@) =~= seq!["edge_id"@, "id"@]);
    let source = match pick_name(
        &names,
        &mapping.source,
        &source_names,
        "edge source",
        true,
    ) {
        Ok(Some(found)) => found,
        Ok(None) => {
            return Err(NutmegError::Internal(String::from_str("nutmeg: a required column was not picked")));
        },
        Err(e) => {
            return Err(e);
        },
    };
    let target = match pick_name(
        &names,
        &mapping.target,
        &target_names,
        "edge target",
        true,
    ) {
        Ok(Some(found)) => found,
        Ok(None) => {
            return Err(NutmegError::Internal(String::from_str("nutmeg: a required column was not picked")));
        },
        Err(e) => {
            return Err(e);
        },
    };
    let label = match pick_name(
        &names,
        &mapping.edge_type,
        &label_names,
        "edge type",
        false,
    ) {
        Ok(found) => found,
        Err(e) => {
            return Err(e);
        },
    };
    let edge_id = match pick_name(&names, &mapping.edge_id, &id_names, "edge id", false) {
        Ok(found) => found,
        Err(e) => {
            return Err(e);
        },
    };
    let mut fields: Vec<FieldDef> = vec![
        text_field("source", true),
        text_field("target", true),
        text_field("label", true),
        text_field("edge_id", true),
    ];
    assert(field_names(fields@) =~= edge_layout());
    let mut columns: Vec<Column> = Vec::new();
    let picked_source = Some((source.0, source.1.clone()));
    let picked_target = Some((target.0, target.1.clone()));
    match text_or(&all, &picked_source, null_text(rows)) {
        Ok(c) => columns.push(c),
        Err(e) => {
            return Err(e);
        },
    }
    match text_or(&all, &picked_target, null_text(rows)) {
        Ok(c) => columns.push(c),
        Err(e) => {
            return Err(e);
        },
    }
    proof {
        reveal_strlit("");
        assert(crate::text::utf8_len(""@) == 0);
        assert(crate::text::utf8_len(""@) * rows == 0);
    }
    match text_or(&all, &label, repeated_text("", rows)) {
        Ok(c) => columns.push(c),
        Err(e) => {
            return Err(e);
        },
    }
    match text_or(&all, &edge_id, null_text(rows)) {
        Ok(c) => columns.push(c),
        Err(e) => {
            return Err(e);
        },
    }
    let mut used: Vec<String> = vec![source.1, target.1];
    proof {
        assert(views(used@) =~= pick_names(edge_pick(*batch, *mapping, 0)) + pick_names(
            edge_pick(*batch, *mapping, 1),
        ));
    }
    let ghost u0 = views(used@);
    if let Some((_, name)) = label {
        used.push(name);
    }
    proof {
        assert(views(used@) =~= u0 + pick_names(edge_pick(*batch, *mapping, 2)));
    }
    let ghost u1 = views(used@);
    if let Some((_, name)) = edge_id {
        used.push(name);
    }
    proof {
        assert(views(used@) =~= u1 + pick_names(edge_pick(*batch, *mapping, 3)));
        assert(views(used@) =~= edge_used(*batch, *mapping));
    }
    assert(all_of_length(columns@, 0, batch_rows(*batch)));
    let ghost before = columns@;
    let _added = match lift_properties(batch, &used, Lift::Edge, &mut fields, &mut columns) {
        Ok(a) => a,
        Err(e) => {
            return Err(e);
        },
    };
    proof {
        assert(before.len() > 0);
        assert(columns@.subrange(0, before.len() as int)[0] == columns@[0]);
        assert(columns@[0] == before[0]);
        assert(columns@.subrange(0, before.len() as int)[1] == columns@[1]);
        assert(columns@[1] == before[1]);
        assert(columns@.subrange(0, before.len() as int)[2] == columns@[2]);
        assert(columns@[2] == before[2]);
        assert(columns@.subrange(0, before.len() as int)[3] == columns@[3]);
        assert(columns@[3] == before[3]);
        assert(field_names(fields@).subrange(0, 4) =~= edge_layout());
        reveal_strlit("source");
        reveal_strlit("target");
        assert(field_name(fields@[0]) == "source"@);
        assert(field_name(fields@[1]) == "target"@);
        assert("source"@[0] != "target"@[0]);
        reveal_strlit("label");
        reveal_strlit("edge_id");
        assert(field_name(fields@[2]) == "label"@);
        assert(field_name(fields@[3]) == "edge_id"@);
        assert("source"@[0] != "label"@[0] && "target"@[0] != "label"@[0]);
        assert("source"@[0] != "edge_id"@[0] && "target"@[0] != "edge_id"@[0] && "label"@[0] != "edge_id"@[0]);
    }
    let ghost made_fields = fields@;
    let ghost made = columns@;
    match make_batch(fields, columns) {
        Ok(b) => {
            proof {
                assert(named_column(b, field_name(made_fields[0])) == Some(made[0]));
                assert(forall|j: int| 0 <= j < 1 ==> #[trigger] field_name(made_fields[j]) != field_name(made_fields[1]));
                assert(named_column(b, field_name(made_fields[1])) == Some(made[1]));
                reveal_strlit("label");
                reveal_strlit("edge_id");
                assert(forall|j: int| 0 <= j < 2 ==> #[trigger] field_name(made_fields[j]) != field_name(made_fields[2]));
                assert(named_column(b, field_name(made_fields[2])) == Some(made[2]));
                assert(forall|j: int| 0 <= j < 3 ==> #[trigger] field_name(made_fields[j]) != field_name(made_fields[3]));
                assert(named_column(b, field_name(made_fields[3])) == Some(made[3]));
                assert(edge_layout()[0] == "source"@ && edge_layout()[1] == "target"@);
                assert(edge_layout()[2] == "label"@ && edge_layout()[3] == "edge_id"@);
            }
            Ok(b)
        },
        Err(m) => Err(arrow_failure(m)),
    }
}

} // verus!
