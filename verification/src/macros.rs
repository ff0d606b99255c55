//! What the `test` attribute and the `DualEnum` derive decide, apart from the
//! token handling: which backends a test runs on, the names of the generated
//! items, and an enum's stored labels with the lookup that reads them back.
use crate::text::{
    debug_text, first_index, lemma_first_index, same_text, str_debug,
    views,
};
use vstd::prelude::*;

verus! {

// ===== #[test(pg, sqlite)] =====

/// The backends a `test(..)` attribute selects, as (PostgreSQL, SQLite): no
/// argument means both; otherwise each argument must be `pg` or `sqlite`.
pub open spec fn selected_backends(args: Seq<Seq<char>>) -> Result<(bool, bool), Seq<char>> {
    if args.len() == 0 {
        Ok((true, true))
    } else if exists|i: int| 0 <= i < args.len() && #[trigger] args[i] != "pg"@ && args[i] != "sqlite"@ {
        Err("expected `pg` and/or `sqlite`"@)
    } else {
        Ok(
            (
                exists|i: int| 0 <= i < args.len() && #[trigger] args[i] == "pg"@,
                exists|i: int| 0 <= i < args.len() && #[trigger] args[i] == "sqlite"@,
            ),
        )
    }
}

/// Reads the identifiers of a `test(..)` attribute into the (PostgreSQL,
/// SQLite) selection.
pub fn parse_backends(args: &Vec<String>) -> (r: Result<(bool, bool), String>)
    ensures
        match r {
            Ok(sel) => selected_backends(views(args@)) == Ok::<(bool, bool), Seq<char>>(sel),
            Err(e) => selected_backends(views(args@)) == Err::<(bool, bool), Seq<char>>(e@),
        },
{
    let ghost a = views(args@);
    if args.len() == 0 {
        return Ok((true, true));
    }
    let mut pg = false;
    let mut sqlite = false;
    let n = args.len();
    for i in 0..n
        invariant
            n == args.len(),
            a == views(args@),
            forall|k: int| 0 <= k < i ==> #[trigger] a[k] == "pg"@ || a[k] == "sqlite"@,
            pg == exists|k: int| 0 <= k < i && #[trigger] a[k] == "pg"@,
            sqlite == exists|k: int| 0 <= k < i && #[trigger] a[k] == "sqlite"@,
    {
        proof {
            reveal_strlit("pg");
            reveal_strlit("sqlite");
        }
        let id = args[i].as_str();
        assert(a[i as int] == id@);
        if same_text(id, "pg") {
            pg = true;
            assert(a[i as int] != "sqlite"@);
        } else if same_text(id, "sqlite") {
            sqlite = true;
            assert(a[i as int] != "pg"@);
        } else {
            assert(a[i as int] != "pg"@ && a[i as int] != "sqlite"@);
            return Err(String::from_str("expected `pg` and/or `sqlite`"));
        }
        assert(pg == exists|k: int| 0 <= k < i + 1 && #[trigger] a[k] == "pg"@);
        assert(sqlite == exists|k: int| 0 <= k < i + 1 && #[trigger] a[k] == "sqlite"@);
    }
    Ok((pg, sqlite))
}

/// The generated test for one backend: the body's name with `_sqlite` or
/// `_pg` appended.
pub fn backend_test_name(body: &str, sqlite: bool) -> (r: String)
    ensures
        r@ == body@ + if sqlite {
            "_sqlite"@
        } else {
            "_pg"@
        },
{
    let mut r = String::from_str(body);
    if sqlite {
        r.append("_sqlite");
    } else {
        r.append("_pg");
    }
    r
}

// ===== #[derive(DualEnum)] =====

/// The `name = "value"` options of the `#[dualdb(..)]` attributes on an item,
/// in order.
pub open spec fn option_views(v: Seq<(String, String)>) -> Seq<(Seq<char>, Seq<char>)> {
    v.map_values(|o: (String, String)| (o.0@, o.1@))
}

/// One variant of the enum a `DualEnum` derive reads: its identifier, whether
/// it has no fields, and its `#[dualdb(..)]` options.
pub struct VariantInput {
    pub ident: String,
    pub is_unit: bool,
    pub options: Vec<(String, String)>,
}

pub struct VariantInputV {
    pub ident: Seq<char>,
    pub is_unit: bool,
    pub options: Seq<(Seq<char>, Seq<char>)>,
}

impl View for VariantInput {
    type V = VariantInputV;

    open spec fn view(&self) -> VariantInputV {
        VariantInputV {
            ident: self.ident@,
            is_unit: self.is_unit,
            options: option_views(self.options@),
        }
    }
}

pub open spec fn variant_views(v: Seq<VariantInput>) -> Seq<VariantInputV> {
    v.map_values(|x: VariantInput| x@)
}

/// Some option is named other than `allowed`.
pub open spec fn has_unknown(options: Seq<(Seq<char>, Seq<char>)>, allowed: Seq<char>) -> bool {
    exists|k: int| 0 <= k < options.len() && (#[trigger] options[k]).0 != allowed
}

/// The value the options set: the last one's, or `default` when there is
/// none.
pub open spec fn option_value(options: Seq<(Seq<char>, Seq<char>)>, default: Seq<char>) -> Seq<char> {
    if options.len() == 0 {
        default
    } else {
        options.last().1
    }
}

/// Why a variant is refused, if it is: it has fields, or an option other than
/// `rename`.
pub open spec fn variant_error(v: VariantInputV) -> Option<Seq<char>> {
    if !v.is_unit {
        Some("DualEnum variants must be unit (fieldless)"@)
    } else if has_unknown(v.options, "rename"@) {
        Some("unknown `dualdb` option (expected `rename`)"@)
    } else {
        None
    }
}

pub open spec fn refused() -> spec_fn(VariantInputV) -> bool {
    |v: VariantInputV| variant_error(v) is Some
}

/// What the derive generates from: the PostgreSQL enum type name, the marker
/// type's name, and each variant with its stored label.
pub struct EnumPlan {
    pub pg_type: String,
    pub marker: String,
    pub variants: Vec<String>,
    pub labels: Vec<String>,
}

pub struct EnumPlanV {
    pub pg_type: Seq<char>,
    pub marker: Seq<char>,
    pub variants: Seq<Seq<char>>,
    pub labels: Seq<Seq<char>>,
}

impl View for EnumPlan {
    type V = EnumPlanV;

    open spec fn view(&self) -> EnumPlanV {
        EnumPlanV {
            pg_type: self.pg_type@,
            marker: self.marker@,
            variants: views(self.variants@),
            labels: views(self.labels@),
        }
    }
}

/// `str::to_lowercase` (Unicode lower case).
pub uninterp spec fn str_lowercase(s: Seq<char>) -> Seq<char>;

/// `str::to_lowercase`. The contract names the result by [`str_lowercase`]
/// and claims nothing else.
#[verifier::external_body]
fn lowercase(s: &str) -> (r: String)
    ensures
        r@ == str_lowercase(s@),
{
    s.to_lowercase()
}

/// The stored label of a variant: its (last) rename, or its identifier.
pub open spec fn label_of(v: VariantInputV) -> Seq<char> {
    option_value(v.options, v.ident)
}

/// The plan a `DualEnum` derive builds, or its error. The input must be an
/// enum; its options may only be `pg_type`; then, variant by variant, each
/// must have no fields and may only have the option `rename`; and there must
/// be at least one variant. The PostgreSQL type name is the last `pg_type` or
/// the enum's name in lower case; the marker is the enum's name followed by
/// `SqlType`.
pub open spec fn planned(
    is_enum: bool,
    name: Seq<char>,
    options: Seq<(Seq<char>, Seq<char>)>,
    vs: Seq<VariantInputV>,
) -> Result<EnumPlanV, Seq<char>> {
    let k = first_index(vs, refused());
    if !is_enum {
        Err("DualEnum can only be derived for enums"@)
    } else if has_unknown(options, "pg_type"@) {
        Err("unknown `dualdb` option (expected `pg_type`)"@)
    } else if k < vs.len() {
        Err(variant_error(vs[k])->Some_0)
    } else if vs.len() == 0 {
        Err("DualEnum needs at least one variant"@)
    } else {
        Ok(
            EnumPlanV {
                pg_type: option_value(options, str_lowercase(name)),
                marker: name + "SqlType"@,
                variants: vs.map_values(|v: VariantInputV| v.ident),
                labels: vs.map_values(|v: VariantInputV| label_of(v)),
            },
        )
    }
}

/// Whether every option is named `allowed`.
fn only_option(options: &Vec<(String, String)>, allowed: &str) -> (r: bool)
    ensures
        r == !has_unknown(option_views(options@), allowed@),
{
    let ghost ov = option_views(options@);
    for k in 0..options.len()
        invariant
            ov == option_views(options@),
            forall|j: int| 0 <= j < k ==> (#[trigger] ov[j]).0 == allowed@,
    {
        assert(ov[k as int].0 == options@[k as int].0@);
        if !same_text(options[k].0.as_str(), allowed) {
            return false;
        }
    }
    true
}

/// The value the options set, or `default`.
fn last_option_value(options: &Vec<(String, String)>, default: String) -> (r: String)
    ensures
        r@ == option_value(option_views(options@), default@),
{
    if options.len() == 0 {
        default
    } else {
        options[options.len() - 1].1.clone()
    }
}

/// Builds the plan of a `DualEnum` derive from what the attribute parsing
/// read: whether the input is an enum, its name, its options and its
/// variants.
pub fn plan_enum(
    is_enum: bool,
    name: &str,
    options: &Vec<(String, String)>,
    variants: &Vec<VariantInput>,
) -> (r: Result<EnumPlan, String>)
    ensures
        match r {
            Ok(p) => planned(is_enum, name@, option_views(options@), variant_views(variants@)) == Ok::<
                EnumPlanV,
                Seq<char>,
            >(p@),
            Err(e) => planned(is_enum, name@, option_views(options@), variant_views(variants@))
                == Err::<EnumPlanV, Seq<char>>(e@),
        },
{
    let ghost vs = variant_views(variants@);
    if !is_enum {
        return Err(String::from_str("DualEnum can only be derived for enums"));
    }
    if !only_option(options, "pg_type") {
        return Err(String::from_str("unknown `dualdb` option (expected `pg_type`)"));
    }
    let pg = last_option_value(options, lowercase(name));
    let mut idents: Vec<String> = Vec::new();
    let mut labels: Vec<String> = Vec::new();
    let n = variants.len();
    for i in 0..n
        invariant
            is_enum,
            !has_unknown(option_views(options@), "pg_type"@),
            n == variants.len(),
            vs == variant_views(variants@),
            forall|k: int| 0 <= k < i ==> !refused()(#[trigger] vs[k]),
            views(idents@) == vs.take(i as int).map_values(|v: VariantInputV| v.ident),
            views(labels@) == vs.take(i as int).map_values(|v: VariantInputV| label_of(v)),
    {
        let v = &variants[i];
        assert(vs[i as int] == v@);
        if !v.is_unit {
            proof {
                lemma_first_index(vs, refused(), i as int);
            }
            return Err(String::from_str("DualEnum variants must be unit (fieldless)"));
        }
        if !only_option(&v.options, "rename") {
            proof {
                lemma_first_index(vs, refused(), i as int);
            }
            return Err(String::from_str("unknown `dualdb` option (expected `rename`)"));
        }
        let label = last_option_value(&v.options, v.ident.clone());
        let ghost before_i = views(idents@);
        let ghost before_l = views(labels@);
        let ident = v.ident.clone();
        assert(label@ == label_of(vs[i as int]));
        assert(ident@ == vs[i as int].ident);
        idents.push(ident);
        labels.push(label);
        assert(vs.take(i + 1) =~= vs.take(i as int).push(vs[i as int]));
        assert(views(idents@) =~= before_i.push(vs[i as int].ident));
        assert(views(labels@) =~= before_l.push(label_of(vs[i as int])));
        assert(views(idents@) =~= vs.take(i + 1).map_values(|v: VariantInputV| v.ident));
        assert(views(labels@) =~= vs.take(i + 1).map_values(|v: VariantInputV| label_of(v)));
    }
    proof {
        lemma_first_index(vs, refused(), n as int);
    }
    if n == 0 {
        return Err(String::from_str("DualEnum needs at least one variant"));
    }
    assert(vs.take(n as int) =~= vs);
    let mut marker = String::from_str(name);
    marker.append("SqlType");
    Ok(EnumPlan { pg_type: pg, marker, variants: idents, labels })
}

pub open spec fn is_label(label: Seq<char>) -> spec_fn(Seq<char>) -> bool {
    |l: Seq<char>| l == label
}

/// The variant a stored label reads back as: the first variant with that
/// label.
pub open spec fn label_variant(labels: Seq<Seq<char>>, label: Seq<char>) -> Option<int> {
    let k = first_index(labels, is_label(label));
    if k < labels.len() {
        Some(k)
    } else {
        None
    }
}

/// The message for a stored label that is no variant's.
pub open spec fn unknown_label_error(pg_type: Seq<char>, label_debug: Seq<char>) -> Seq<char> {
    "unrecognized `"@ + pg_type + "` enum label: "@ + label_debug
}

impl EnumPlan {
    /// The stored label of variant `i`.
    pub fn label(&self, i: usize) -> (r: &str)
        requires
            i < self@.labels.len(),
        ensures
            r@ == self@.labels[i as int],
    {
        self.labels[i].as_str()
    }

    /// Reads a stored label back: the index of the first variant with that
    /// label, or the error naming the PostgreSQL type and the label.
    pub fn variant_of(&self, label: &str) -> (r: Result<usize, String>)
        ensures
            match r {
                Ok(i) => label_variant(self@.labels, label@) == Some(i as int),
                Err(e) => label_variant(self@.labels, label@) is None && e@ == unknown_label_error(
                    self@.pg_type,
                    str_debug(label@),
                ),
            },
    {
        let ghost ls = self@.labels;
        let n = self.labels.len();
        for i in 0..n
            invariant
                n == self.labels.len(),
                ls == self@.labels,
                forall|j: int| 0 <= j < i ==> !is_label(label@)(#[trigger] ls[j]),
        {
            assert(ls[i as int] == self.labels@[i as int]@);
            if same_text(self.labels[i].as_str(), label) {
                proof {
                    lemma_first_index(ls, is_label(label@), i as int);
                }
                return Ok(i);
            }
        }
        proof {
            lemma_first_index(ls, is_label(label@), n as int);
        }
        let mut m = String::from_str("unrecognized `");
        m.append(self.pg_type.as_str());
        m.append("` enum label: ");
        let d = debug_text(label);
        m.append(d.as_str());
        Err(m)
    }
}

/// With distinct labels, every variant's label reads back as that variant.
pub proof fn lemma_labels_round_trip(labels: Seq<Seq<char>>, i: int)
    requires
        0 <= i < labels.len(),
        forall|j: int, k: int| 0 <= j < k < labels.len() ==> labels[j] != labels[k],
    ensures
        label_variant(labels, labels[i]) == Some(i),
{
    assert forall|k: int| 0 <= k < i implies !is_label(labels[i])(#[trigger] labels[k]) by {
        assert(labels[k] != labels[i]);
    }
    lemma_first_index(labels, is_label(labels[i]), i);
}

} // verus!
