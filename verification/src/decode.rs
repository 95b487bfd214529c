//! Reading typed values out of a document, and saying what is wrong with one
//! that does not have the expected shape.
use vstd::prelude::*;
use vstd::string::*;

use crate::dict::{find, mapped};
use crate::json::{
    index_of_member, items_view, lemma_items, lemma_members, members_view, text_at, Json, JsonView,
};
use crate::text::{debug_text, dec, decimal, join, join_text, quoted, same, texts};

verus! {

/// What a member is expected to be.
#[derive(Debug, Clone, Copy, PartialEq, Eq, Structural)]
pub enum Kind {
    Text,
    Flag,
    U16,
    U32,
    U64,
    Usize,
    /// A list of texts.
    Texts,
    /// Texts under names.
    TextTable,
    /// Two identifiers.
    IdPair,
    /// How commands are executed: `container` or `host`.
    Mode,
    Table,
    Any,
}

/// A member that may be there, or has to be.
pub struct Field {
    pub name: &'static str,
    pub kind: Kind,
    pub required: bool,
    /// Null stands for a member that is not there.
    pub nullable: bool,
}

/// A whole number in decimal.
pub open spec fn int_text(n: int) -> Seq<char> {
    if n < 0 {
        "-"@ + dec((-n) as nat)
    } else {
        dec(n as nat)
    }
}

/// What a document is, in the words of a complaint.
pub open spec fn described(j: JsonView) -> Seq<char> {
    match j {
        JsonView::Null => "null"@,
        JsonView::Bool(b) => if b {
            "boolean `true`"@
        } else {
            "boolean `false`"@
        },
        JsonView::Int(n) => "integer `"@ + int_text(n as int) + "`"@,
        JsonView::Other(_) => "floating point number"@,
        JsonView::Str(s) => "string "@ + debug_text(s),
        JsonView::Array(_) => "sequence"@,
        JsonView::Object(_) => "map"@,
    }
}

pub open spec fn wrong_type(j: JsonView, expected: Seq<char>) -> Seq<char> {
    "invalid type: "@ + described(j) + ", expected "@ + expected
}

/// What is wrong with a document that should be an unsigned number up to
/// `most`.
pub open spec fn uint_problem(j: JsonView, most: int, expected: Seq<char>) -> Option<Seq<char>> {
    match j {
        JsonView::Int(n) => if 0 <= n <= most {
            None
        } else {
            Some("invalid value: integer `"@ + int_text(n as int) + "`, expected "@ + expected)
        },
        _ => Some(wrong_type(j, expected)),
    }
}

pub open spec fn text_problem(j: JsonView) -> Option<Seq<char>> {
    match j {
        JsonView::Str(_) => None,
        _ => Some(wrong_type(j, "a string"@)),
    }
}

/// What is wrong with the first item that is not a text.
pub open spec fn items_problem(items: Seq<JsonView>) -> Option<Seq<char>>
    decreases items.len(),
{
    if items.len() == 0 {
        None
    } else {
        match text_problem(items[0]) {
            Some(m) => Some(m),
            None => items_problem(items.skip(1)),
        }
    }
}

/// What is wrong with the first member that is not a text.
pub open spec fn values_problem(members: Seq<(Seq<char>, JsonView)>) -> Option<Seq<char>>
    decreases members.len(),
{
    if members.len() == 0 {
        None
    } else {
        match text_problem(members[0].1) {
            Some(m) => Some(m),
            None => values_problem(members.skip(1)),
        }
    }
}

/// What is wrong with a document that should be of some kind, if anything is.
pub open spec fn problem(j: JsonView, kind: Kind) -> Option<Seq<char>> {
    match kind {
        Kind::Any => None,
        Kind::Text => text_problem(j),
        Kind::Flag => match j {
            JsonView::Bool(_) => None,
            _ => Some(wrong_type(j, "a boolean"@)),
        },
        Kind::U16 => uint_problem(j, u16::MAX as int, "u16"@),
        Kind::U32 => uint_problem(j, u32::MAX as int, "u32"@),
        Kind::U64 => uint_problem(j, u64::MAX as int, "u64"@),
        Kind::Usize => uint_problem(j, usize::MAX as int, "usize"@),
        Kind::Texts => match j {
            JsonView::Array(a) => items_problem(a),
            _ => Some(wrong_type(j, "a sequence"@)),
        },
        Kind::TextTable => match j {
            JsonView::Object(m) => values_problem(m),
            _ => Some(wrong_type(j, "a map"@)),
        },
        Kind::IdPair => match j {
            JsonView::Array(a) => if a.len() != 2 {
                Some(
                    "invalid length "@ + dec(a.len()) + ", expected an array of length 2"@,
                )
            } else {
                match uint_problem(a[0], u32::MAX as int, "u32"@) {
                    Some(m) => Some(m),
                    None => uint_problem(a[1], u32::MAX as int, "u32"@),
                }
            },
            _ => Some(wrong_type(j, "an array of length 2"@)),
        },
        Kind::Mode => match j {
            JsonView::Str(s) => if s == "container"@ || s == "host"@ {
                None
            } else {
                Some("unknown variant `"@ + s + "`, expected `container` or `host`"@)
            },
            _ => Some(wrong_type(j, "variant identifier"@)),
        },
        Kind::Table => match j {
            JsonView::Object(_) => None,
            _ => Some(wrong_type(j, "a map"@)),
        },
    }
}

/// What is wrong with a member, as the field that it is.
pub open spec fn field_problem(j: JsonView, f: Field) -> Option<Seq<char>> {
    if f.nullable && j is Null {
        None
    } else {
        problem(j, f.kind)
    }
}

/// The field with a name.
pub open spec fn field_named(fields: Seq<Field>, name: Seq<char>) -> Option<Field>
    decreases fields.len(),
{
    if fields.len() == 0 {
        None
    } else if fields[0].name@ == name {
        Some(fields[0])
    } else {
        field_named(fields.skip(1), name)
    }
}

pub open spec fn ticked(f: Field) -> Seq<char> {
    "`"@ + f.name@ + "`"@
}

pub open spec fn all_ticked(fields: Seq<Field>) -> Seq<Seq<char>> {
    fields.map_values(|f: Field| ticked(f))
}

/// The fields there are, in the words of a complaint.
pub open spec fn expectation(fields: Seq<Field>) -> Seq<char> {
    if fields.len() == 0 {
        "there are no fields"@
    } else if fields.len() == 1 {
        "expected "@ + ticked(fields[0])
    } else if fields.len() == 2 {
        "expected "@ + ticked(fields[0]) + " or "@ + ticked(fields[1])
    } else {
        "expected one of "@ + join(all_ticked(fields), ", "@)
    }
}

pub open spec fn unknown_field(name: Seq<char>, fields: Seq<Field>) -> Seq<char> {
    "unknown field `"@ + name + "`, "@ + expectation(fields)
}

/// What is wrong with the first member that no field expects as it is. Where
/// the table is open, other members may stand in it.
pub open spec fn member_problem(
    members: Seq<(Seq<char>, JsonView)>,
    fields: Seq<Field>,
    open: bool,
) -> Option<Seq<char>>
    decreases members.len(),
{
    if members.len() == 0 {
        None
    } else {
        let here = match field_named(fields, members[0].0) {
            Some(f) => field_problem(members[0].1, f),
            None => if open {
                None
            } else {
                Some(unknown_field(members[0].0, fields))
            },
        };
        match here {
            Some(m) => Some(m),
            None => member_problem(members.skip(1), fields, open),
        }
    }
}

/// Which field has to be there and is not.
pub open spec fn missing_field(
    members: Seq<(Seq<char>, JsonView)>,
    fields: Seq<Field>,
) -> Option<Seq<char>>
    decreases fields.len(),
{
    if fields.len() == 0 {
        None
    } else if fields[0].required && find(members, fields[0].name@) is None {
        Some("missing field `"@ + fields[0].name@ + "`"@)
    } else {
        missing_field(members, fields.skip(1))
    }
}

/// What is wrong with a table that should have these fields, if anything is.
pub open spec fn table_problem(
    members: Seq<(Seq<char>, JsonView)>,
    fields: Seq<Field>,
    open: bool,
) -> Option<Seq<char>> {
    match member_problem(members, fields, open) {
        Some(m) => Some(m),
        None => missing_field(members, fields),
    }
}

/// A member that a field expects has no problem where the table has none.
pub proof fn lemma_member_fits(
    members: Seq<(Seq<char>, JsonView)>,
    fields: Seq<Field>,
    open: bool,
    name: Seq<char>,
)
    requires
        member_problem(members, fields, open) is None,
        find(members, name) is Some,
        field_named(fields, name) is Some,
    ensures
        field_problem(find(members, name)->0, field_named(fields, name)->0) is None,
    decreases members.len(),
{
    if members[0].0 != name {
        lemma_member_fits(members.skip(1), fields, open, name);
    }
}

/// A required field is there where none is missing.
pub proof fn lemma_not_missing(
    members: Seq<(Seq<char>, JsonView)>,
    fields: Seq<Field>,
    i: int,
)
    requires
        missing_field(members, fields) is None,
        0 <= i < fields.len(),
        fields[i].required,
    ensures
        find(members, fields[i].name@) is Some,
    decreases i,
{
    if i > 0 {
        assert(fields.skip(1)[i - 1] == fields[i]);
        lemma_not_missing(members, fields.skip(1), i - 1);
    }
}

/// The names of the fields are different ones.
pub open spec fn distinct(f: Seq<Field>) -> bool {
    forall|i: int, j: int|
        0 <= i < j < f.len() ==> (#[trigger] f[i]).name@ != (#[trigger] f[j]).name@
}

pub proof fn lemma_named(f: Seq<Field>, i: int)
    requires
        distinct(f),
        0 <= i < f.len(),
    ensures
        field_named(f, f[i].name@) == Some(f[i]),
    decreases i,
{
    if i > 0 {
        let rest = f.skip(1);
        assert(forall|j: int| 0 <= j < rest.len() ==> rest[j] == f[j + 1]);
        assert(f[0].name@ != f[i].name@);
        assert(rest[i - 1] == f[i]);
        lemma_named(rest, i - 1);
    }
}

/// In a table without problems every field is what it should be, and is there
/// if it has to be.
pub proof fn lemma_field(
    members: Seq<(Seq<char>, JsonView)>,
    f: Seq<Field>,
    open: bool,
    i: int,
)
    requires
        distinct(f),
        table_problem(members, f, open) is None,
        0 <= i < f.len(),
    ensures
        find(members, f[i].name@) is Some ==> field_problem(
            find(members, f[i].name@)->0,
            f[i],
        ) is None,
        f[i].required ==> find(members, f[i].name@) is Some,
{
    lemma_named(f, i);
    if find(members, f[i].name@) is Some {
        lemma_member_fits(members, f, open, f[i].name@);
    }
    if f[i].required {
        lemma_not_missing(members, f, i);
    }
}

/// A table has no problems if every member is what its field expects and every
/// field that has to be there is.
pub proof fn lemma_no_problem(members: Seq<(Seq<char>, JsonView)>, f: Seq<Field>, open: bool)
    requires
        forall|i: int|
            0 <= i < members.len() ==> field_named(f, (#[trigger] members[i]).0) is Some
                && field_problem(members[i].1, field_named(f, members[i].0)->0) is None,
        forall|i: int|
            0 <= i < f.len() && (#[trigger] f[i]).required ==> find(members, f[i].name@) is Some,
    ensures
        table_problem(members, f, open) is None,
{
    lemma_no_member_problem(members, f, open);
    lemma_none_missing(members, f);
}

proof fn lemma_no_member_problem(
    members: Seq<(Seq<char>, JsonView)>,
    f: Seq<Field>,
    open: bool,
)
    requires
        forall|i: int|
            0 <= i < members.len() ==> field_named(f, (#[trigger] members[i]).0) is Some
                && field_problem(members[i].1, field_named(f, members[i].0)->0) is None,
    ensures
        member_problem(members, f, open) is None,
    decreases members.len(),
{
    if members.len() > 0 {
        let rest = members.skip(1);
        assert(forall|i: int| 0 <= i < rest.len() ==> #[trigger] rest[i] == members[i + 1]);
        lemma_no_member_problem(rest, f, open);
        assert(field_named(f, members[0].0) is Some);
    }
}

proof fn lemma_none_missing(members: Seq<(Seq<char>, JsonView)>, f: Seq<Field>)
    requires
        forall|i: int|
            0 <= i < f.len() && (#[trigger] f[i]).required ==> find(members, f[i].name@) is Some,
    ensures
        missing_field(members, f) is None,
    decreases f.len(),
{
    if f.len() > 0 {
        let rest = f.skip(1);
        assert(forall|i: int| 0 <= i < rest.len() ==> #[trigger] rest[i] == f[i + 1]);
        lemma_none_missing(members, rest);
        assert(f[0].required ==> find(members, f[0].name@) is Some);
    }
}

/// The text under a name, or another where there is none.
pub open spec fn text_or(table: JsonView, name: Seq<char>, default: Seq<char>) -> Seq<char> {
    match text_at(table, name) {
        Some(s) => s,
        None => default,
    }
}

/// The text under a name, or another where there is none.
pub fn text_under(table: &Json, name: &str, default: &str) -> (r: String)
    ensures
        r@ == text_or(table@, name@, default@),
{
    match table.get_text(name) {
        Some(s) => s.clone(),
        None => default.to_string(),
    }
}

// ---------------------------------------------------------------------------

pub fn int_words(n: i128) -> (r: String)
    ensures
        r@ == int_text(n as int),
{
    if n < 0 {
        "-".to_string().concat(big_decimal(n).as_str())
    } else {
        big_decimal(n)
    }
}

/// The digits of a number, without its sign.
fn big_decimal(n: i128) -> (r: String)
    ensures
        r@ == dec(if n < 0 {
            (-n) as nat
        } else {
            n as nat
        }),
    decreases (if n < 0 {
        -n
    } else {
        n as int
    }),
{
    if -10 < n && n < 10 {
        let d: i128 = if n < 0 {
            -n
        } else {
            n
        };
        return decimal(d as u64);
    }
    // Rust's division cuts towards zero, so the sign stays with the quotient.
    let q: i128;
    let d: i128;
    if n < 0 {
        if n == i128::MIN {
            q = 17014118346046923173168730371588410572;
            d = 8;
        } else {
            let m: i128 = -n;
            q = m / 10;
            d = m % 10;
        }
    } else {
        q = n / 10;
        d = n % 10;
    }
    big_decimal(q).concat(decimal(d as u64).as_str())
}

fn describe(j: &Json) -> (r: String)
    ensures
        r@ == described(j@),
{
    match j {
        Json::Null => "null".to_string(),
        Json::Bool(b) => if *b {
            "boolean `true`".to_string()
        } else {
            "boolean `false`".to_string()
        },
        Json::Int(n) => "integer `".to_string().concat(int_words(*n).as_str()).concat("`"),
        Json::Other(_) => "floating point number".to_string(),
        Json::Str(s) => "string ".to_string().concat(quoted(s.as_str()).as_str()),
        Json::Array(_) => "sequence".to_string(),
        Json::Object(_) => "map".to_string(),
    }
}

pub fn wrong(j: &Json, expected: &str) -> (r: String)
    ensures
        r@ == wrong_type(j@, expected@),
{
    "invalid type: ".to_string().concat(describe(j).as_str()).concat(", expected ").concat(expected)
}

/// The text of an optional string.
pub open spec fn seen(r: Option<String>) -> Option<Seq<char>> {
    match r {
        Some(m) => Some(m@),
        None => None,
    }
}

fn check_uint(j: &Json, most: u64, expected: &str) -> (r: Option<String>)
    ensures
        seen(r) == uint_problem(j@, most as int, expected@),
{
    match j {
        Json::Int(n) => if 0 <= *n && *n <= most as i128 {
            None
        } else {
            Some(
                "invalid value: integer `".to_string().concat(int_words(*n).as_str()).concat(
                    "`, expected ",
                ).concat(expected),
            )
        },
        _ => Some(wrong(j, expected)),
    }
}

fn check_text(j: &Json) -> (r: Option<String>)
    ensures
        seen(r) == text_problem(j@),
{
    match j {
        Json::Str(_) => None,
        _ => Some(wrong(j, "a string")),
    }
}

fn check_items(items: &Vec<Json>) -> (r: Option<String>)
    ensures
        seen(r) == items_problem(items_view(items@)),
{
    let ghost all = items_view(items@);
    proof {
        lemma_items(items@);
        assert(all.skip(0) =~= all);
    }
    let mut i: usize = 0;
    while i < items.len()
        invariant
            i <= items@.len(),
            all == items_view(items@),
            all.len() == items@.len(),
            forall|j: int| 0 <= j < items@.len() ==> #[trigger] all[j] == items@[j]@,
            items_problem(all) == items_problem(all.skip(i as int)),
        decreases items@.len() - i,
    {
        assert(all.skip(i as int)[0] == all[i as int]);
        match check_text(&items[i]) {
            Some(m) => {
                return Some(m);
            },
            None => {},
        }
        assert(all.skip(i as int).skip(1) =~= all.skip(i + 1));
        i += 1;
    }
    None
}

fn check_values(members: &Vec<(String, Json)>) -> (r: Option<String>)
    ensures
        seen(r) == values_problem(members_view(members@)),
{
    let ghost all = members_view(members@);
    proof {
        lemma_members(members@);
        assert(all.skip(0) =~= all);
    }
    let mut i: usize = 0;
    while i < members.len()
        invariant
            i <= members@.len(),
            all == members_view(members@),
            all.len() == members@.len(),
            forall|j: int|
                0 <= j < members@.len() ==> #[trigger] all[j] == (members@[j].0@, members@[j].1@),
            values_problem(all) == values_problem(all.skip(i as int)),
        decreases members@.len() - i,
    {
        assert(all.skip(i as int)[0] == all[i as int]);
        match check_text(&members[i].1) {
            Some(m) => {
                return Some(m);
            },
            None => {},
        }
        assert(all.skip(i as int).skip(1) =~= all.skip(i + 1));
        i += 1;
    }
    None
}

/// What is wrong with a document that should be of some kind, if anything is.
pub fn check(j: &Json, kind: Kind) -> (r: Option<String>)
    ensures
        seen(r) == problem(j@, kind),
{
    match kind {
        Kind::Any => None,
        Kind::Text => check_text(j),
        Kind::Flag => match j {
            Json::Bool(_) => None,
            _ => Some(wrong(j, "a boolean")),
        },
        Kind::U16 => check_uint(j, 0xffff, "u16"),
        Kind::U32 => check_uint(j, 0xffff_ffff, "u32"),
        Kind::U64 => check_uint(j, 0xffff_ffff_ffff_ffff, "u64"),
        Kind::Usize => check_uint(j, usize::MAX as u64, "usize"),
        Kind::Texts => match j {
            Json::Array(a) => check_items(a),
            _ => Some(wrong(j, "a sequence")),
        },
        Kind::TextTable => match j {
            Json::Object(m) => check_values(m),
            _ => Some(wrong(j, "a map")),
        },
        Kind::IdPair => match j {
            Json::Array(a) => {
                proof {
                    lemma_items(a@);
                }
                if a.len() != 2 {
                    Some(
                        "invalid length ".to_string().concat(
                            decimal(a.len() as u64).as_str(),
                        ).concat(", expected an array of length 2"),
                    )
                } else {
                    assert(items_view(a@)[0] == a@[0]@ && items_view(a@)[1] == a@[1]@);
                    match check_uint(&a[0], 0xffff_ffff, "u32") {
                        Some(m) => Some(m),
                        None => check_uint(&a[1], 0xffff_ffff, "u32"),
                    }
                }
            },
            _ => Some(wrong(j, "an array of length 2")),
        },
        Kind::Mode => match j {
            Json::Str(s) => if same(s.as_str(), "container") || same(s.as_str(), "host") {
                None
            } else {
                Some(
                    "unknown variant `".to_string().concat(s.as_str()).concat(
                        "`, expected `container` or `host`",
                    ),
                )
            },
            _ => Some(wrong(j, "variant identifier")),
        },
        Kind::Table => match j {
            Json::Object(_) => None,
            _ => Some(wrong(j, "a map")),
        },
    }
}

fn check_field(j: &Json, f: &Field) -> (r: Option<String>)
    ensures
        seen(r) == field_problem(j@, *f),
{
    if f.nullable {
        match j {
            Json::Null => {
                return None;
            },
            _ => {},
        }
    }
    check(j, f.kind)
}

fn field_index(fields: &Vec<Field>, name: &str) -> (r: Option<usize>)
    ensures
        match r {
            Some(i) => i < fields@.len() && field_named(fields@, name@) == Some(fields@[i as int]),
            None => field_named(fields@, name@) is None,
        },
{
    let mut i: usize = 0;
    assert(fields@.skip(0) =~= fields@);
    while i < fields.len()
        invariant
            i <= fields@.len(),
            field_named(fields@, name@) == field_named(fields@.skip(i as int), name@),
        decreases fields@.len() - i,
    {
        assert(fields@.skip(i as int)[0] == fields@[i as int]);
        if same(fields[i].name, name) {
            return Some(i);
        }
        assert(fields@.skip(i as int).skip(1) =~= fields@.skip(i + 1));
        i += 1;
    }
    None
}

fn tick(f: &Field) -> (r: String)
    ensures
        r@ == ticked(*f),
{
    "`".to_string().concat(f.name).concat("`")
}

fn expect(fields: &Vec<Field>) -> (r: String)
    ensures
        r@ == expectation(fields@),
{
    if fields.len() == 0 {
        "there are no fields".to_string()
    } else if fields.len() == 1 {
        "expected ".to_string().concat(tick(&fields[0]).as_str())
    } else if fields.len() == 2 {
        "expected ".to_string().concat(tick(&fields[0]).as_str()).concat(" or ").concat(
            tick(&fields[1]).as_str(),
        )
    } else {
        let mut parts: Vec<String> = Vec::new();
        let mut i: usize = 0;
        while i < fields.len()
            invariant
                i <= fields@.len(),
                parts@.len() == i,
                forall|j: int| 0 <= j < i ==> (#[trigger] parts@[j])@ == ticked(fields@[j]),
            decreases fields@.len() - i,
        {
            parts.push(tick(&fields[i]));
            i += 1;
        }
        assert(texts(parts@) =~= all_ticked(fields@));
        "expected one of ".to_string().concat(join_text(&parts, ", ").as_str())
    }
}

/// What is wrong with a table that should have these fields, if anything is.
pub fn check_table(members: &Vec<(String, Json)>, fields: &Vec<Field>, open: bool) -> (r: Option<
    String,
>)
    ensures
        seen(r) == table_problem(members_view(members@), fields@, open),
{
    let ghost all = members_view(members@);
    proof {
        lemma_members(members@);
        assert(all.skip(0) =~= all);
    }
    let mut i: usize = 0;
    while i < members.len()
        invariant
            i <= members@.len(),
            all == members_view(members@),
            all.len() == members@.len(),
            forall|j: int|
                0 <= j < members@.len() ==> #[trigger] all[j] == (members@[j].0@, members@[j].1@),
            member_problem(all, fields@, open) == member_problem(
                all.skip(i as int),
                fields@,
                open,
            ),
        decreases members@.len() - i,
    {
        let ghost rest = all.skip(i as int);
        assert(rest[0] == all[i as int]);
        match field_index(fields, members[i].0.as_str()) {
            Some(f) => {
                match check_field(&members[i].1, &fields[f]) {
                    Some(m) => {
                        return Some(m);
                    },
                    None => {},
                }
            },
            None => {
                if !open {
                    return Some(
                        "unknown field `".to_string().concat(members[i].0.as_str()).concat(
                            "`, ",
                        ).concat(expect(fields).as_str()),
                    );
                }
            },
        }
        assert(rest.skip(1) =~= all.skip(i + 1));
        i += 1;
    }
    assert(member_problem(all.skip(i as int), fields@, open) is None);
    let mut k: usize = 0;
    assert(fields@.skip(0) =~= fields@);
    while k < fields.len()
        invariant
            k <= fields@.len(),
            all == members_view(members@),
            member_problem(all, fields@, open) is None,
            missing_field(all, fields@) == missing_field(all, fields@.skip(k as int)),
        decreases fields@.len() - k,
    {
        assert(fields@.skip(k as int)[0] == fields@[k as int]);
        if fields[k].required {
            match index_of_member(members, fields[k].name) {
                Some(_) => {},
                None => {
                    return Some(
                        "missing field `".to_string().concat(fields[k].name).concat("`"),
                    );
                },
            }
        }
        assert(fields@.skip(k as int).skip(1) =~= fields@.skip(k + 1));
        k += 1;
    }
    None
}

// ---------------------------------------------------------------------------
// Records written as lists
// ---------------------------------------------------------------------------

/// The items of a list under the names of the fields that they stand for.
pub open spec fn named_items(names: Seq<&'static str>, a: Seq<JsonView>) -> Seq<
    (Seq<char>, JsonView),
> {
    Seq::new(
        if a.len() < names.len() {
            a.len()
        } else {
            names.len()
        },
        |i: int| (names[i]@, a[i]),
    )
}

/// A record may also be written as a list: its values, in the order of its
/// fields. At least so many have to be there, and more than there are fields
/// are passed over only where the reader is `loose`.
pub open spec fn spelled_out(
    j: JsonView,
    names: Seq<&'static str>,
    least: nat,
    loose: bool,
) -> JsonView {
    match j {
        JsonView::Array(a) => if least <= a.len() && (loose || a.len() <= names.len()) {
            JsonView::Object(named_items(names, a))
        } else {
            j
        },
        _ => j,
    }
}

/// The same of every value in a table.
pub open spec fn spelled_entries(
    j: JsonView,
    names: Seq<&'static str>,
    least: nat,
    loose: bool,
) -> JsonView {
    match j {
        JsonView::Object(m) => JsonView::Object(
            mapped(m, |v: JsonView| spelled_out(v, names, least, loose)),
        ),
        _ => j,
    }
}

/// The same of the member with a name, or, where it is a table of records, of
/// `each` of them.
pub open spec fn spelled_at(
    j: JsonView,
    key: Seq<char>,
    each: bool,
    names: Seq<&'static str>,
    least: nat,
    loose: bool,
) -> JsonView {
    match j {
        JsonView::Object(m) => JsonView::Object(
            Seq::new(
                m.len(),
                |i: int|
                    (
                        m[i].0,
                        if m[i].0 != key {
                            m[i].1
                        } else if each {
                            spelled_entries(m[i].1, names, least, loose)
                        } else {
                            spelled_out(m[i].1, names, least, loose)
                        },
                    ),
            ),
        ),
        _ => j,
    }
}

pub fn spell_out(j: &Json, names: &[&'static str], least: usize, loose: bool) -> (r: Json)
    ensures
        r@ == spelled_out(j@, names@, least as nat, loose),
{
    match j {
        Json::Array(a) => {
            proof {
                lemma_items(a@);
            }
            if least <= a.len() && (loose || a.len() <= names.len()) {
                let mut out: Vec<(String, Json)> = Vec::new();
                let mut i: usize = 0;
                while i < a.len() && i < names.len()
                    invariant
                        i <= a@.len(),
                        i <= names@.len(),
                        out@.len() == i,
                        forall|k: int|
                            0 <= k < i ==> (#[trigger] out@[k]).0@ == names@[k]@ && out@[k].1@
                                == a@[k]@,
                    decreases a@.len() - i,
                {
                    out.push((names[i].to_string(), a[i].copy()));
                    i += 1;
                }
                proof {
                    lemma_members(out@);
                    assert(members_view(out@) =~= named_items(names@, items_view(a@)));
                }
                Json::Object(out)
            } else {
                j.copy()
            }
        },
        _ => j.copy(),
    }
}

fn spell_entries(j: &Json, names: &[&'static str], least: usize, loose: bool) -> (r: Json)
    ensures
        r@ == spelled_entries(j@, names@, least as nat, loose),
{
    match j {
        Json::Object(m) => {
            let mut out: Vec<(String, Json)> = Vec::new();
            let mut i: usize = 0;
            while i < m.len()
                invariant
                    i <= m@.len(),
                    out@.len() == i,
                    forall|k: int|
                        0 <= k < i ==> (#[trigger] out@[k]).0@ == m@[k].0@ && out@[k].1@
                            == spelled_out(m@[k].1@, names@, least as nat, loose),
                decreases m@.len() - i,
            {
                out.push((m[i].0.clone(), spell_out(&m[i].1, names, least, loose)));
                i += 1;
            }
            proof {
                lemma_members(m@);
                lemma_members(out@);
                let f = |v: JsonView| spelled_out(v, names@, least as nat, loose);
                assert(members_view(out@) =~= mapped(members_view(m@), f));
            }
            Json::Object(out)
        },
        _ => j.copy(),
    }
}

pub fn spell_at(
    j: &Json,
    key: &str,
    each: bool,
    names: &[&'static str],
    least: usize,
    loose: bool,
) -> (r: Json)
    ensures
        r@ == spelled_at(j@, key@, each, names@, least as nat, loose),
{
    match j {
        Json::Object(m) => {
            let ghost all = members_view(m@);
            let ghost whole = spelled_at(j@, key@, each, names@, least as nat, loose);
            let mut out: Vec<(String, Json)> = Vec::new();
            let mut i: usize = 0;
            proof {
                lemma_members(m@);
            }
            while i < m.len()
                invariant
                    i <= m@.len(),
                    all == members_view(m@),
                    all.len() == m@.len(),
                    forall|k: int|
                        0 <= k < m@.len() ==> #[trigger] all[k] == (m@[k].0@, m@[k].1@),
                    j@ == JsonView::Object(all),
                    whole == spelled_at(j@, key@, each, names@, least as nat, loose),
                    out@.len() == i,
                    forall|k: int|
                        0 <= k < i ==> (#[trigger] out@[k]).0@ == whole->Object_0[k].0
                            && out@[k].1@ == whole->Object_0[k].1,
                decreases m@.len() - i,
            {
                assert(all[i as int] == (m@[i as int].0@, m@[i as int].1@));
                let v = if !same(m[i].0.as_str(), key) {
                    m[i].1.copy()
                } else if each {
                    spell_entries(&m[i].1, names, least, loose)
                } else {
                    spell_out(&m[i].1, names, least, loose)
                };
                out.push((m[i].0.clone(), v));
                i += 1;
            }
            proof {
                lemma_members(out@);
                assert(members_view(out@) =~= whole->Object_0);
            }
            Json::Object(out)
        },
        _ => j.copy(),
    }
}

}
