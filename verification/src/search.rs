//! Queries over recorded changes: the filter of an advanced search and of
//! the CSV export, with their parameters, and the escaping of a search
//! text for SQL `LIKE`.
use vstd::prelude::*;
use crate::text::{chars_of, owned, push_char, push_str, str_eq, to_lowercase, unicode_lowercase};
use crate::webhook::{join, join_exec, opt_view};
use crate::recency::text_lt;

verus! {

/// A bound parameter of a query.
#[derive(Debug)]
pub enum SqlParam {
    Text(String),
    Int(i64),
}

/// A parameter as a value: text, or integer.
pub open spec fn param_view(p: SqlParam) -> (bool, Seq<char>, int) {
    match p {
        SqlParam::Text(s) => (true, s@, 0),
        SqlParam::Int(n) => (false, Seq::empty(), n as int),
    }
}

pub open spec fn text_param(s: Seq<char>) -> (bool, Seq<char>, int) {
    (true, s, 0)
}

pub open spec fn int_param(n: int) -> (bool, Seq<char>, int) {
    (false, Seq::empty(), n)
}

/// `LIKE` escaping: `\`, `%` and `_` are preceded by a backslash.
pub open spec fn like_escaped(s: Seq<char>) -> Seq<char>
    decreases s.len(),
{
    if s.len() == 0 {
        Seq::empty()
    } else {
        like_escaped(s.drop_last()) + (if s.last() == '\\' || s.last() == '%' || s.last() == '_' {
            seq!['\\', s.last()]
        } else {
            seq![s.last()]
        })
    }
}

/// The `LIKE` pattern that finds `q` anywhere, ignoring case.
pub open spec fn like_pattern(q: Seq<char>) -> Seq<char> {
    "%"@ + like_escaped(unicode_lowercase(q)) + "%"@
}

/// The `LIKE` pattern for a search text.
pub fn like_pattern_exec(q: &str) -> (r: String)
    ensures
        r@ == like_pattern(q@),
{
    let l = to_lowercase(q);
    let c = chars_of(l.as_str());
    let mut r = owned("%");
    let ghost start = r@;
    let mut i: usize = 0;
    assert(c@.subrange(0, 0) =~= Seq::<char>::empty());
    while i < c.len()
        invariant
            i <= c@.len(),
            c@ == unicode_lowercase(q@),
            start == "%"@,
            r@ == start + like_escaped(c@.subrange(0, i as int)),
        decreases c.len() - i,
    {
        assert(c@.subrange(0, i + 1).drop_last() =~= c@.subrange(0, i as int));
        let x = c[i];
        if x == '\\' || x == '%' || x == '_' {
            push_char(&mut r, '\\');
        }
        push_char(&mut r, x);
        i = i + 1;
        assert(r@ =~= start + like_escaped(c@.subrange(0, i as int)));
    }
    assert(c@.subrange(0, c.len() as int) =~= c@);
    push_str(&mut r, "%");
    r
}

/// A present, non-empty text.
pub open spec fn given(o: Option<Seq<char>>) -> bool {
    o matches Some(s) && s.len() > 0
}

/// The condition and parameters of the search text.
pub open spec fn query_part(query: Option<Seq<char>>) -> (Seq<Seq<char>>, Seq<(bool, Seq<char>, int)>) {
    if given(query) {
        (
            seq!["(LOWER(f.path) LIKE ? ESCAPE '\\' OR LOWER(f.filename) LIKE ? ESCAPE '\\')"@],
            seq![text_param(like_pattern(query->Some_0)), text_param(like_pattern(query->Some_0))],
        )
    } else {
        (Seq::empty(), Seq::empty())
    }
}

/// The conditions and parameters of the type, dates and extension.
pub open spec fn field_parts(
    change_type: Option<Seq<char>>,
    date_from: Option<Seq<char>>,
    date_to: Option<Seq<char>>,
    extension: Option<Seq<char>>,
) -> (Seq<Seq<char>>, Seq<(bool, Seq<char>, int)>) {
    let (c2, p2) = if given(change_type) && change_type->Some_0 != "ALL"@ {
        (seq!["c.change_type = ?"@], seq![text_param(change_type->Some_0)])
    } else {
        (Seq::empty(), Seq::empty())
    };
    let (c3, p3) = if given(date_from) {
        (seq!["DATE(c.detected_at) >= ?"@], seq![text_param(date_from->Some_0)])
    } else {
        (Seq::empty(), Seq::empty())
    };
    let (c4, p4) = if given(date_to) {
        (seq!["DATE(c.detected_at) <= ?"@], seq![text_param(date_to->Some_0)])
    } else {
        (Seq::empty(), Seq::empty())
    };
    let (c5, p5) = if given(extension) {
        (seq!["LOWER(f.extension) = ?"@], seq![text_param(unicode_lowercase(extension->Some_0))])
    } else {
        (Seq::empty(), Seq::empty())
    };
    (c2 + c3 + c4 + c5, p2 + p3 + p4 + p5)
}

/// The conditions and parameters of the size bounds.
pub open spec fn size_parts(min_size: Option<i64>, max_size: Option<i64>) -> (Seq<Seq<char>>, Seq<(bool, Seq<char>, int)>) {
    let (c6, p6) = match min_size {
        Some(m) => (seq!["f.size >= ?"@], seq![int_param(m as int)]),
        None => (Seq::empty(), Seq::empty()),
    };
    let (c7, p7) = match max_size {
        Some(m) => (seq!["f.size <= ?"@], seq![int_param(m as int)]),
        None => (Seq::empty(), Seq::empty()),
    };
    (c6 + c7, p6 + p7)
}

/// The conditions and parameters an advanced search adds, in order.
pub open spec fn search_parts(
    query: Option<Seq<char>>,
    change_type: Option<Seq<char>>,
    date_from: Option<Seq<char>>,
    date_to: Option<Seq<char>>,
    extension: Option<Seq<char>>,
    min_size: Option<i64>,
    max_size: Option<i64>,
) -> (Seq<Seq<char>>, Seq<(bool, Seq<char>, int)>) {
    let a = query_part(query);
    let b = field_parts(change_type, date_from, date_to, extension);
    let c = size_parts(min_size, max_size);
    (a.0 + b.0 + c.0, a.1 + b.1 + c.1)
}

/// `WHERE` and the conditions joined with `AND`; empty without any.
pub open spec fn where_clause(conds: Seq<Seq<char>>) -> Seq<char> {
    if conds.len() == 0 {
        Seq::empty()
    } else {
        "WHERE "@ + join(conds, " AND "@)
    }
}

/// The number of size bounds a search sets.
pub open spec fn size_bound_count(min_size: Option<i64>, max_size: Option<i64>) -> nat {
    (if min_size is Some { 1nat } else { 0nat }) + (if max_size is Some { 1nat } else { 0nat })
}

/// A file of `size` bytes passes every size condition among `conds`, each
/// condition bound to the parameter at the same place.
pub open spec fn size_conds_admit(conds: Seq<Seq<char>>, params: Seq<(bool, Seq<char>, int)>, size: int) -> bool {
    forall|k: int|
        0 <= k < conds.len() ==> (#[trigger] conds[k] == "f.size >= ?"@ ==> !params[k].0 && size >= params[k].2)
            && (conds[k] == "f.size <= ?"@ ==> !params[k].0 && size <= params[k].2)
}

proof fn lemma_size_parts_admit(min_size: Option<i64>, max_size: Option<i64>, size: int)
    ensures
        size_parts(min_size, max_size).0.len() == size_bound_count(min_size, max_size),
        size_parts(min_size, max_size).1.len() == size_bound_count(min_size, max_size),
        size_conds_admit(size_parts(min_size, max_size).0, size_parts(min_size, max_size).1, size) <==> ((
        min_size matches Some(m) ==> m <= size) && (max_size matches Some(m) ==> size <= m)),
{
    let c = size_parts(min_size, max_size);
    let n = size_bound_count(min_size, max_size);
    let ge = "f.size >= ?"@;
    let le = "f.size <= ?"@;
    reveal_strlit("f.size >= ?");
    reveal_strlit("f.size <= ?");
    assert(ge[7] == '>' && le[7] == '<');
    assert(ge != le);
    if min_size is Some {
        assert(c.0[0] == ge);
    }
    if max_size is Some {
        assert(c.0[n - 1] == le);
    }
}

proof fn lemma_front_conds(
    query: Option<Seq<char>>,
    change_type: Option<Seq<char>>,
    date_from: Option<Seq<char>>,
    date_to: Option<Seq<char>>,
    extension: Option<Seq<char>>,
)
    ensures
        forall|k: int|
            0 <= k < (query_part(query).0 + field_parts(change_type, date_from, date_to, extension).0).len()
                ==> #[trigger] (query_part(query).0 + field_parts(
                change_type,
                date_from,
                date_to,
                extension,
            ).0)[k] != "f.size >= ?"@ && (query_part(query).0 + field_parts(
                change_type,
                date_from,
                date_to,
                extension,
            ).0)[k] != "f.size <= ?"@,
{
    let f = query_part(query).0 + field_parts(change_type, date_from, date_to, extension).0;
    let l1 = "(LOWER(f.path) LIKE ? ESCAPE '\\' OR LOWER(f.filename) LIKE ? ESCAPE '\\')"@;
    let l2 = "c.change_type = ?"@;
    let l3 = "DATE(c.detected_at) >= ?"@;
    let l4 = "DATE(c.detected_at) <= ?"@;
    let l5 = "LOWER(f.extension) = ?"@;
    assert(forall|k: int| 0 <= k < f.len() ==> #[trigger] f[k] == l1 || f[k] == l2 || f[k] == l3 || f[k] == l4 || f[k] == l5);
    reveal_strlit("f.size >= ?");
    reveal_strlit("f.size <= ?");
    reveal_strlit("(LOWER(f.path) LIKE ? ESCAPE '\\' OR LOWER(f.filename) LIKE ? ESCAPE '\\')");
    reveal_strlit("c.change_type = ?");
    reveal_strlit("DATE(c.detected_at) >= ?");
    reveal_strlit("DATE(c.detected_at) <= ?");
    reveal_strlit("LOWER(f.extension) = ?");
    assert("f.size >= ?"@[0] == 'f' && "f.size <= ?"@[0] == 'f');
    assert(l1[0] == '(' && l2[0] == 'c' && l3[0] == 'D' && l4[0] == 'D' && l5[0] == 'L');
}

/// Law: the size bounds of an advanced search come last among its
/// conditions, one parameter each, and a file of `size` bytes passes them
/// exactly when it is at least `min_size` and at most `max_size` (where
/// set); no earlier condition bounds the size.
pub proof fn lemma_size_filter(
    query: Option<Seq<char>>,
    change_type: Option<Seq<char>>,
    date_from: Option<Seq<char>>,
    date_to: Option<Seq<char>>,
    extension: Option<Seq<char>>,
    min_size: Option<i64>,
    max_size: Option<i64>,
    size: int,
)
    ensures
        ({
            let (conds, params) = search_parts(query, change_type, date_from, date_to, extension, min_size, max_size);
            let n = size_bound_count(min_size, max_size);
            &&& n <= conds.len() && n <= params.len()
            &&& size_conds_admit(
                conds.skip(conds.len() - n),
                params.skip(params.len() - n),
                size,
            ) <==> ((min_size matches Some(m) ==> m <= size) && (max_size matches Some(m) ==> size <= m))
            &&& forall|k: int|
                0 <= k < conds.len() - n ==> #[trigger] conds[k] != "f.size >= ?"@ && conds[k] != "f.size <= ?"@
        }),
{
    let (conds, params) = search_parts(query, change_type, date_from, date_to, extension, min_size, max_size);
    let a = query_part(query);
    let b = field_parts(change_type, date_from, date_to, extension);
    let c = size_parts(min_size, max_size);
    let n = size_bound_count(min_size, max_size);
    lemma_size_parts_admit(min_size, max_size, size);
    lemma_front_conds(query, change_type, date_from, date_to, extension);
    assert(conds.skip(conds.len() - n) =~= c.0);
    assert(params.skip(params.len() - n) =~= c.1);
    assert forall|k: int| 0 <= k < conds.len() - n implies #[trigger] conds[k] != "f.size >= ?"@ && conds[k]
        != "f.size <= ?"@ by {
        assert(conds[k] == (a.0 + b.0)[k]);
    }
}

/// A change detected on `day` (`YYYY-MM-DD`) passes every date condition
/// among `conds`, each condition bound to the text parameter at the same
/// place (dates compare as text).
pub open spec fn date_conds_admit(conds: Seq<Seq<char>>, params: Seq<(bool, Seq<char>, int)>, day: Seq<char>) -> bool {
    forall|k: int|
        0 <= k < conds.len() ==> (#[trigger] conds[k] == "DATE(c.detected_at) >= ?"@ ==> params[k].0 && !text_lt(
            day,
            params[k].1,
        )) && (conds[k] == "DATE(c.detected_at) <= ?"@ ==> params[k].0 && !text_lt(params[k].1, day))
}

/// Law: the type, date and extension filters of an advanced search bind
/// one parameter each, and a change detected on `day` passes their date
/// conditions exactly when it is not before `date_from` and not after
/// `date_to` (where given).
pub proof fn lemma_date_filter(
    change_type: Option<Seq<char>>,
    date_from: Option<Seq<char>>,
    date_to: Option<Seq<char>>,
    extension: Option<Seq<char>>,
    day: Seq<char>,
)
    ensures
        ({
            let (conds, params) = field_parts(change_type, date_from, date_to, extension);
            &&& conds.len() == params.len()
            &&& date_conds_admit(conds, params, day) <==> ((given(date_from) ==> !text_lt(
                day,
                date_from->Some_0,
            )) && (given(date_to) ==> !text_lt(date_to->Some_0, day)))
        }),
{
    let (conds, params) = field_parts(change_type, date_from, date_to, extension);
    let l2 = "c.change_type = ?"@;
    let l3 = "DATE(c.detected_at) >= ?"@;
    let l4 = "DATE(c.detected_at) <= ?"@;
    let l5 = "LOWER(f.extension) = ?"@;
    reveal_strlit("c.change_type = ?");
    reveal_strlit("DATE(c.detected_at) >= ?");
    reveal_strlit("DATE(c.detected_at) <= ?");
    reveal_strlit("LOWER(f.extension) = ?");
    assert(l2[0] == 'c' && l3[0] == 'D' && l4[0] == 'D' && l5[0] == 'L');
    assert(l3[20] == '>' && l4[20] == '<');
    assert(l2 != l3 && l2 != l4 && l5 != l3 && l5 != l4 && l3 != l4);
    let n2: int = if given(change_type) && change_type->Some_0 != "ALL"@ { 1 } else { 0 };
    let n3: int = if given(date_from) { 1 } else { 0 };
    let n4: int = if given(date_to) { 1 } else { 0 };
    assert(forall|k: int|
        0 <= k < conds.len() ==> (#[trigger] conds[k] == l3 <==> (given(date_from) && k == n2)));
    assert(forall|k: int|
        0 <= k < conds.len() ==> (#[trigger] conds[k] == l4 <==> (given(date_to) && k == n2 + n3)));
    if given(date_from) {
        assert(conds[n2] == l3 && params[n2] == text_param(date_from->Some_0));
    }
    if given(date_to) {
        assert(conds[n2 + n3] == l4 && params[n2 + n3] == text_param(date_to->Some_0));
    }
}

/// The queries of an advanced search and their parameters.
pub struct SearchQuery {
    pub count_sql: String,
    pub data_sql: String,
    pub count_params: Vec<SqlParam>,
    pub data_params: Vec<SqlParam>,
}

/// The counting query of an advanced search.
pub open spec fn count_sql_spec(w: Seq<char>) -> Seq<char> {
    "SELECT COUNT(*) FROM changes c JOIN files f ON c.file_id = f.id "@ + w
}

/// The data query of an advanced search.
pub open spec fn data_sql_spec(w: Seq<char>) -> Seq<char> {
    "SELECT c.id, c.file_id, f.path, f.filename, c.change_type, c.detected_at, c.previous_path, c.new_path\n             FROM changes c JOIN files f ON c.file_id = f.id "@
        + w + "\n             ORDER BY c.detected_at DESC LIMIT ? OFFSET ?"@
}

fn push_cond(
    conds: &mut Vec<&'static str>,
    params: &mut Vec<SqlParam>,
    cond: &'static str,
    p: SqlParam,
)
    ensures
        final(conds)@.map_values(|c: &str| c@) == old(conds)@.map_values(|c: &str| c@).push(cond@),
        final(params)@.map_values(|x: SqlParam| param_view(x)) == old(params)@.map_values(
            |x: SqlParam| param_view(x),
        ).push(param_view(p)),
{
    let ghost c0 = conds@.map_values(|c: &str| c@);
    let ghost p0 = params@.map_values(|x: SqlParam| param_view(x));
    conds.push(cond);
    let ghost pv = param_view(p);
    params.push(p);
    assert(conds@.map_values(|c: &str| c@) =~= c0.push(cond@));
    assert(params@.map_values(|x: SqlParam| param_view(x)) =~= p0.push(pv));
}

fn is_given(o: Option<&str>) -> (r: bool)
    ensures
        r == given(
            match o {
                Some(s) => Some(s@),
                None => None,
            },
        ),
{
    match o {
        Some(s) => !s.is_empty(),
        None => false,
    }
}

fn copy_params(ps: &Vec<SqlParam>) -> (r: Vec<SqlParam>)
    ensures
        r@.map_values(|x: SqlParam| param_view(x)) == ps@.map_values(|x: SqlParam| param_view(x)),
{
    let mut r: Vec<SqlParam> = Vec::new();
    let mut i: usize = 0;
    while i < ps.len()
        invariant
            i <= ps@.len(),
            r@.map_values(|x: SqlParam| param_view(x)) == ps@.map_values(|x: SqlParam| param_view(x)).subrange(
                0,
                i as int,
            ),
        decreases ps.len() - i,
    {
        let p = match &ps[i] {
            SqlParam::Text(s) => SqlParam::Text(s.clone()),
            SqlParam::Int(n) => SqlParam::Int(*n),
        };
        let ghost before = r@.map_values(|x: SqlParam| param_view(x));
        let ghost pv = param_view(p);
        r.push(p);
        assert(r@.map_values(|x: SqlParam| param_view(x)) =~= before.push(pv));
        i = i + 1;
        assert(r@.map_values(|x: SqlParam| param_view(x)) =~= ps@.map_values(|x: SqlParam| param_view(x)).subrange(
            0,
            i as int,
        ));
    }
    assert(ps@.map_values(|x: SqlParam| param_view(x)).subrange(0, ps.len() as int) =~= ps@.map_values(
        |x: SqlParam| param_view(x),
    ));
    r
}

fn where_exec(conds: &Vec<&'static str>) -> (r: String)
    ensures
        r@ == where_clause(conds@.map_values(|c: &str| c@)),
{
    if conds.len() == 0 {
        return String::new();
    }
    let mut owned_conds: Vec<String> = Vec::new();
    let mut i: usize = 0;
    while i < conds.len()
        invariant
            i <= conds@.len(),
            owned_conds@.map_values(|s: String| s@) == conds@.map_values(|c: &str| c@).subrange(0, i as int),
        decreases conds.len() - i,
    {
        let s = owned(conds[i]);
        let ghost before = owned_conds@.map_values(|s: String| s@);
        owned_conds.push(s);
        assert(owned_conds@.map_values(|s: String| s@) =~= before.push(s@));
        i = i + 1;
        assert(owned_conds@.map_values(|s: String| s@) =~= conds@.map_values(|c: &str| c@).subrange(
            0,
            i as int,
        ));
    }
    assert(conds@.map_values(|c: &str| c@).subrange(0, conds.len() as int) =~= conds@.map_values(
        |c: &str| c@,
    ));
    let mut r = owned("WHERE ");
    let j = join_exec(owned_conds.as_slice(), " AND ");
    push_str(&mut r, j.as_str());
    r
}

fn push_query_filter(conds: &mut Vec<&'static str>, params: &mut Vec<SqlParam>, query: Option<&str>)
    ensures
        final(conds)@.map_values(|c: &str| c@) == old(conds)@.map_values(|c: &str| c@) + query_part(
            opt_view(query),
        ).0,
        final(params)@.map_values(|x: SqlParam| param_view(x)) == old(params)@.map_values(
            |x: SqlParam| param_view(x),
        ) + query_part(opt_view(query)).1,
{
    let ghost c0 = conds@.map_values(|c: &str| c@);
    let ghost p0 = params@.map_values(|x: SqlParam| param_view(x));
    if is_given(query) {
        let q = query.unwrap();
        let pat = like_pattern_exec(q);
        let pat2 = pat.clone();
        push_cond(conds, params, "(LOWER(f.path) LIKE ? ESCAPE '\\' OR LOWER(f.filename) LIKE ? ESCAPE '\\')", SqlParam::Text(pat));
        let ghost before = params@.map_values(|x: SqlParam| param_view(x));
        let ghost pv = param_view(SqlParam::Text(pat2));
        params.push(SqlParam::Text(pat2));
        assert(params@.map_values(|x: SqlParam| param_view(x)) =~= before.push(pv));
    }
    assert(conds@.map_values(|c: &str| c@) =~= c0 + query_part(opt_view(query)).0);
    assert(params@.map_values(|x: SqlParam| param_view(x)) =~= p0 + query_part(opt_view(query)).1);
}

fn push_field_filters(
    conds: &mut Vec<&'static str>,
    params: &mut Vec<SqlParam>,
    change_type: Option<&str>,
    date_from: Option<&str>,
    date_to: Option<&str>,
    extension: Option<&str>,
)
    ensures
        final(conds)@.map_values(|c: &str| c@) == old(conds)@.map_values(|c: &str| c@) + field_parts(
            opt_view(change_type),
            opt_view(date_from),
            opt_view(date_to),
            opt_view(extension),
        ).0,
        final(params)@.map_values(|x: SqlParam| param_view(x)) == old(params)@.map_values(
            |x: SqlParam| param_view(x),
        ) + field_parts(
            opt_view(change_type),
            opt_view(date_from),
            opt_view(date_to),
            opt_view(extension),
        ).1,
{
    let ghost c0 = conds@.map_values(|c: &str| c@);
    let ghost p0 = params@.map_values(|x: SqlParam| param_view(x));
    if is_given(change_type) && !str_eq(change_type.unwrap(), "ALL") {
        push_cond(conds, params, "c.change_type = ?", SqlParam::Text(owned(change_type.unwrap())));
    }
    if is_given(date_from) {
        push_cond(conds, params, "DATE(c.detected_at) >= ?", SqlParam::Text(owned(date_from.unwrap())));
    }
    if is_given(date_to) {
        push_cond(conds, params, "DATE(c.detected_at) <= ?", SqlParam::Text(owned(date_to.unwrap())));
    }
    if is_given(extension) {
        push_cond(conds, params, "LOWER(f.extension) = ?", SqlParam::Text(to_lowercase(extension.unwrap())));
    }
    let ghost fp = field_parts(opt_view(change_type), opt_view(date_from), opt_view(date_to), opt_view(extension));
    assert(conds@.map_values(|c: &str| c@) =~= c0 + fp.0);
    assert(params@.map_values(|x: SqlParam| param_view(x)) =~= p0 + fp.1);
}

fn push_size_filters(conds: &mut Vec<&'static str>, params: &mut Vec<SqlParam>, min_size: Option<i64>, max_size: Option<i64>)
    ensures
        final(conds)@.map_values(|c: &str| c@) == old(conds)@.map_values(|c: &str| c@) + size_parts(
            min_size,
            max_size,
        ).0,
        final(params)@.map_values(|x: SqlParam| param_view(x)) == old(params)@.map_values(
            |x: SqlParam| param_view(x),
        ) + size_parts(min_size, max_size).1,
{
    let ghost c0 = conds@.map_values(|c: &str| c@);
    let ghost p0 = params@.map_values(|x: SqlParam| param_view(x));
    match min_size {
        Some(m) => push_cond(conds, params, "f.size >= ?", SqlParam::Int(m)),
        None => {},
    }
    match max_size {
        Some(m) => push_cond(conds, params, "f.size <= ?", SqlParam::Int(m)),
        None => {},
    }
    assert(conds@.map_values(|c: &str| c@) =~= c0 + size_parts(min_size, max_size).0);
    assert(params@.map_values(|x: SqlParam| param_view(x)) =~= p0 + size_parts(min_size, max_size).1);
}

/// Builds the queries of an advanced search: the filters given (empty
/// texts and the type `ALL` filter nothing), the count over them, and the
/// page of records with `limit` and `offset` bound last.
pub fn advanced_search_query(
    query: Option<&str>,
    change_type: Option<&str>,
    date_from: Option<&str>,
    date_to: Option<&str>,
    extension: Option<&str>,
    min_size: Option<i64>,
    max_size: Option<i64>,
    limit: i64,
    offset: i64,
) -> (r: SearchQuery)
    ensures
        ({
            let (conds, params) = search_parts(
                opt_view(query),
                opt_view(change_type),
                opt_view(date_from),
                opt_view(date_to),
                opt_view(extension),
                min_size,
                max_size,
            );
            &&& r.count_sql@ == count_sql_spec(where_clause(conds))
            &&& r.data_sql@ == data_sql_spec(where_clause(conds))
            &&& r.count_params@.map_values(|x: SqlParam| param_view(x)) == params
            &&& r.data_params@.map_values(|x: SqlParam| param_view(x)) == params.push(
                int_param(limit as int),
            ).push(int_param(offset as int))
        }),
{
    let mut conds: Vec<&'static str> = Vec::new();
    let mut params: Vec<SqlParam> = Vec::new();
    push_query_filter(&mut conds, &mut params, query);
    push_field_filters(&mut conds, &mut params, change_type, date_from, date_to, extension);
    push_size_filters(&mut conds, &mut params, min_size, max_size);
    let w = where_exec(&conds);
    let mut count_sql = owned("SELECT COUNT(*) FROM changes c JOIN files f ON c.file_id = f.id ");
    push_str(&mut count_sql, w.as_str());
    let mut data_sql = owned(
        "SELECT c.id, c.file_id, f.path, f.filename, c.change_type, c.detected_at, c.previous_path, c.new_path\n             FROM changes c JOIN files f ON c.file_id = f.id ",
    );
    push_str(&mut data_sql, w.as_str());
    push_str(&mut data_sql, "\n             ORDER BY c.detected_at DESC LIMIT ? OFFSET ?");
    let count_params = copy_params(&params);
    let mut data_params = params;
    let ghost d0 = data_params@.map_values(|x: SqlParam| param_view(x));
    data_params.push(SqlParam::Int(limit));
    data_params.push(SqlParam::Int(offset));
    assert(data_params@.map_values(|x: SqlParam| param_view(x)) =~= d0.push(int_param(limit as int)).push(
        int_param(offset as int),
    ));
    SearchQuery { count_sql, data_sql, count_params, data_params }
}

/// The query of the full CSV export over an optional date range.
pub open spec fn export_sql_spec(w: Seq<char>) -> Seq<char> {
    "SELECT c.id, f.path, f.filename, COALESCE(f.extension, ''), f.size, c.change_type, c.detected_at, c.previous_path, c.new_path\n             FROM changes c JOIN files f ON c.file_id = f.id "@
        + w + "\n             ORDER BY c.detected_at DESC"@
}

/// The conditions and parameters of the export's date range (given bounds
/// apply even when empty).
pub open spec fn export_parts(date_from: Option<Seq<char>>, date_to: Option<Seq<char>>) -> (Seq<Seq<char>>, Seq<(bool, Seq<char>, int)>) {
    let (c1, p1) = match date_from {
        Some(d) => (seq!["DATE(c.detected_at) >= ?"@], seq![text_param(d)]),
        None => (Seq::empty(), Seq::empty()),
    };
    let (c2, p2) = match date_to {
        Some(d) => (seq!["DATE(c.detected_at) <= ?"@], seq![text_param(d)]),
        None => (Seq::empty(), Seq::empty()),
    };
    (c1 + c2, p1 + p2)
}

/// The query and parameters of the full CSV export.
pub fn export_changes_query(date_from: Option<&str>, date_to: Option<&str>) -> (r: (String, Vec<SqlParam>))
    ensures
        ({
            let (conds, params) = export_parts(opt_view(date_from), opt_view(date_to));
            &&& r.0@ == export_sql_spec(where_clause(conds))
            &&& r.1@.map_values(|x: SqlParam| param_view(x)) == params
        }),
{
    let mut conds: Vec<&'static str> = Vec::new();
    let mut params: Vec<SqlParam> = Vec::new();
    let ghost (wc, wp) = export_parts(opt_view(date_from), opt_view(date_to));
    match date_from {
        Some(d) => push_cond(&mut conds, &mut params, "DATE(c.detected_at) >= ?", SqlParam::Text(owned(d))),
        None => {},
    }
    match date_to {
        Some(d) => push_cond(&mut conds, &mut params, "DATE(c.detected_at) <= ?", SqlParam::Text(owned(d))),
        None => {},
    }
    assert(conds@.map_values(|c: &str| c@) =~= wc);
    assert(params@.map_values(|x: SqlParam| param_view(x)) =~= wp);
    let w = where_exec(&conds);
    let mut sql = owned(
        "SELECT c.id, f.path, f.filename, COALESCE(f.extension, ''), f.size, c.change_type, c.detected_at, c.previous_path, c.new_path\n             FROM changes c JOIN files f ON c.file_id = f.id ",
    );
    push_str(&mut sql, w.as_str());
    push_str(&mut sql, "\n             ORDER BY c.detected_at DESC");
    (sql, params)
}

} // verus!
