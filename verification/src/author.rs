use vstd::prelude::*;
use crate::article::hyphenated;
use crate::numbers::{decimal, decimal_string, parse_i64, parsed_i64};
use crate::text::{push_char, push_str, replace_char, string_or_empty, text_or_empty};

verus! {

/// A member of the club as the site shows it.
pub struct Author {
    pub author_id: String,
    pub name: String,
    pub year: i16,
    pub bio: String,
    pub email: String,
    pub perm_level: i8,
    pub google_magic: String,
    pub club_position: String,
    pub formatted_name: String,
    pub formatted_year: String,
}

/// The columns of one row of the authors table, each `None` where the
/// column could not be read as its type. The year is read twice: as an
/// `i16` for the year itself and as an `i32` for its short form.
pub struct AuthorRow {
    pub author_id: Option<String>,
    pub name: Option<String>,
    pub year: Option<i16>,
    pub year_wide: Option<i32>,
    pub bio: Option<String>,
    pub email: Option<String>,
    pub perm_level: Option<i8>,
    pub google_magic: Option<String>,
    pub club_position: Option<String>,
}

/// The last two digits of a year, keeping its sign (Rust's `%`, whose
/// remainder takes the sign of the dividend).
pub open spec fn short_year(y: int) -> int {
    if y >= 0 {
        y % 100
    } else {
        -((-y) % 100)
    }
}

/// The short year form: an apostrophe, then the last two digits.
pub open spec fn short_year_text(y: int) -> Seq<char> {
    seq!['\''] + decimal(short_year(y))
}

/// The permission level a row gives (zero where missing).
pub open spec fn row_level(row: AuthorRow) -> i8 {
    row.perm_level.unwrap_or(0)
}

/// Rows of members with any permission are listed.
pub open spec fn is_listed(row: AuthorRow) -> bool {
    row_level(row) > 0
}

/// `a` is the author that `row` describes: missing text columns are empty,
/// a missing position is `Goon`, a missing year 1997, a missing level zero;
/// the hyphenated name falls back to `GAY` where the name is missing.
pub open spec fn built_author(a: Author, row: AuthorRow) -> bool {
    &&& a.author_id@ == text_or_empty(row.author_id)
    &&& a.name@ == text_or_empty(row.name)
    &&& a.year == row.year.unwrap_or(1997)
    &&& a.bio@ == text_or_empty(row.bio)
    &&& a.google_magic@ == text_or_empty(row.google_magic)
    &&& a.email@ == text_or_empty(row.email)
    &&& a.perm_level == row_level(row)
    &&& a.club_position@ == (match row.club_position {
        Some(p) => p@,
        None => "Goon"@,
    })
    &&& a.formatted_name@ == hyphenated(
        match row.name {
            Some(n) => n@,
            None => "GAY"@,
        },
    )
    &&& a.formatted_year@ == short_year_text(row.year_wide.unwrap_or(1997) as int)
}

/// The short year form of `y`.
pub fn short_year_string(y: i32) -> (s: String)
    ensures
        s@ == short_year_text(y as int),
{
    let wide = y as i64;
    let r: i64 = if wide >= 0 {
        wide % 100
    } else {
        -((-wide) % 100)
    };
    let mut s = String::new();
    push_char(&mut s, '\'');
    let digits = decimal_string(r);
    push_str(&mut s, digits.as_str());
    s
}

/// The author that a row describes.
pub fn author_from_row(row: &AuthorRow) -> (a: Author)
    ensures
        built_author(a, *row),
        a.bio@ == text_or_empty(row.bio),
        a.name@ == text_or_empty(row.name),
{
    let name = string_or_empty(&row.name);
    let formatted_name = match &row.name {
        Some(n) => replace_char(n.as_str(), ' ', '-'),
        None => replace_char("GAY", ' ', '-'),
    };
    let club_position = match &row.club_position {
        Some(p) => p.clone(),
        None => {
            let mut p = String::new();
            push_str(&mut p, "Goon");
            p
        },
    };
    Author {
        author_id: string_or_empty(&row.author_id),
        name,
        year: row.year.unwrap_or(1997),
        bio: string_or_empty(&row.bio),
        email: string_or_empty(&row.email),
        perm_level: row.perm_level.unwrap_or(0),
        google_magic: string_or_empty(&row.google_magic),
        club_position,
        formatted_name,
        formatted_year: short_year_string(row.year_wide.unwrap_or(1997)),
    }
}

/// The members that the rows describe, in order, leaving out rows without
/// any permission.
pub fn get_authors(rows: Vec<AuthorRow>) -> (r: Vec<Author>)
    ensures
        r@.len() == rows@.filter(|row: AuthorRow| is_listed(row)).len(),
        forall|k: int| 0 <= k < r@.len() ==> (#[trigger] r@[k]).perm_level > 0,
        forall|k: int|
            0 <= k < r@.len() ==> built_author(
                #[trigger] r@[k],
                rows@.filter(|row: AuthorRow| is_listed(row))[k],
            ),
        forall|k: int|
            0 <= k < r@.len() ==> (#[trigger] r@[k]).bio@ == text_or_empty(
                rows@.filter(|row: AuthorRow| is_listed(row))[k].bio,
            ) && r@[k].name@ == text_or_empty(rows@.filter(|row: AuthorRow| is_listed(row))[k].name),
{
    let mut out: Vec<Author> = Vec::new();
    for i in 0..rows.len()
        invariant
            out@.len() == rows@.take(i as int).filter(|row: AuthorRow| is_listed(row)).len(),
            forall|k: int|
                0 <= k < out@.len() ==> built_author(
                    #[trigger] out@[k],
                    rows@.take(i as int).filter(|row: AuthorRow| is_listed(row))[k],
                ),
    {
        let row = &rows[i];
        proof {
            assert(rows@.take(i + 1) =~= rows@.take(i as int).push(*row));
            rows@.take(i as int).lemma_filter_push(*row, |row: AuthorRow| is_listed(row));
        }
        if row.perm_level.unwrap_or(0) > 0 {
            let a = author_from_row(row);
            out.push(a);
        }
    }
    assert(rows@.take(rows@.len() as int) =~= rows@);
    proof {
        assert forall|k: int| 0 <= k < out@.len() implies (#[trigger] out@[k]).perm_level > 0 by {
            let kept = rows@.filter(|row: AuthorRow| is_listed(row));
            rows@.lemma_filter_pred(|row: AuthorRow| is_listed(row), k);
        }
    }
    out
}

/// An author built from a row carries each column of the row unchanged
/// where it is present; a missing text column gives an empty text.
pub proof fn lemma_built_author_columns(a: Author, row: AuthorRow)
    requires
        built_author(a, row),
    ensures
        row.bio matches Some(b) ==> a.bio@ == b@,
        row.bio is None ==> a.bio@.len() == 0,
        row.name matches Some(n) ==> a.name@ == n@,
        row.name is None ==> a.name@.len() == 0,
        row.author_id matches Some(i) ==> a.author_id@ == i@,
        row.author_id is None ==> a.author_id@.len() == 0,
        row.email matches Some(e) ==> a.email@ == e@,
        row.email is None ==> a.email@.len() == 0,
        row.google_magic matches Some(g) ==> a.google_magic@ == g@,
        row.google_magic is None ==> a.google_magic@.len() == 0,
        row.club_position matches Some(p) ==> a.club_position@ == p@,
        row.year matches Some(y) ==> a.year == y,
        row.perm_level matches Some(p) ==> a.perm_level == p,
{
}

/// The member whose hyphenated name is `slug`.
pub open spec fn has_slug(a: Author, slug: Seq<char>) -> bool {
    hyphenated(a.name@) == slug
}

/// The first member whose hyphenated name is `slug`.
pub fn find_member(authors: Vec<Author>, slug: &String) -> (r: Option<Author>)
    ensures
        r is None <==> forall|k: int| 0 <= k < authors@.len() ==> !has_slug(#[trigger] authors@[k], slug@),
        r matches Some(a) ==> exists|k: int|
            0 <= k < authors@.len() && a == #[trigger] authors@[k] && has_slug(a, slug@)
                && forall|m: int| 0 <= m < k ==> !has_slug(#[trigger] authors@[m], slug@),
{
    let mut found: Option<usize> = None;
    for i in 0..authors.len()
        invariant
            found is None ==> forall|m: int| 0 <= m < i ==> !has_slug(#[trigger] authors@[m], slug@),
            found matches Some(k) ==> k < authors@.len() && has_slug(authors@[k as int], slug@)
                && forall|m: int| 0 <= m < k ==> !has_slug(#[trigger] authors@[m], slug@),
    {
        if found.is_none() {
            let hy = replace_char(authors[i].name.as_str(), ' ', '-');
            if hy == *slug {
                found = Some(i);
            }
        }
    }
    match found {
        Some(k) => {
            let mut v = authors;
            Some(v.remove(k))
        },
        None => None,
    }
}

/// The signed-in member: both cookies are present, the stored token and
/// email match them and, where `needs_membership`, the member has some
/// permission.
pub open spec fn is_signed_in(a: Author, token: Option<String>, email: Option<String>, needs_membership: bool) -> bool {
    &&& token is Some
    &&& a.google_magic@ == token->0@
    &&& email is Some
    &&& a.email@ == email->0@
    &&& needs_membership ==> a.perm_level > 0
}

/// The first member that the cookies sign in.
pub fn signed_in_author(
    authors: Vec<Author>,
    token: &Option<String>,
    email: &Option<String>,
    needs_membership: bool,
) -> (r: Option<Author>)
    ensures
        r is None <==> forall|k: int| 0 <= k < authors@.len() ==> !is_signed_in(#[trigger] authors@[k], *token, *email, needs_membership),
        r matches Some(a) ==> exists|k: int|
            0 <= k < authors@.len() && a == #[trigger] authors@[k] && is_signed_in(a, *token, *email, needs_membership)
                && forall|m: int| 0 <= m < k ==> !is_signed_in(#[trigger] authors@[m], *token, *email, needs_membership),
{
    let mut found: Option<usize> = None;
    for i in 0..authors.len()
        invariant
            found is None ==> forall|m: int| 0 <= m < i ==> !is_signed_in(#[trigger] authors@[m], *token, *email, needs_membership),
            found matches Some(k) ==> k < authors@.len() && is_signed_in(authors@[k as int], *token, *email, needs_membership)
                && forall|m: int| 0 <= m < k ==> !is_signed_in(#[trigger] authors@[m], *token, *email, needs_membership),
    {
        if found.is_none() {
            let a = &authors[i];
            let ok = match (token, email) {
                (Some(t), Some(e)) => a.google_magic == *t && a.email == *e && (!needs_membership || a.perm_level > 0),
                _ => false,
            };
            if ok {
                found = Some(i);
            }
        }
    }
    match found {
        Some(k) => {
            let mut v = authors;
            Some(v.remove(k))
        },
        None => None,
    }
}

/// The values of the profile editor page.
pub struct ProfileEditPageValue {
    pub bio: String,
    pub name: String,
    pub year: String,
    pub email: String,
    pub position: String,
}

/// The profile editor page of a member: the year written out in decimal.
pub fn profile_page_values(a: Author) -> (v: ProfileEditPageValue)
    ensures
        v.bio == a.bio,
        v.name == a.name,
        v.year@ == decimal(a.year as int),
        v.email == a.email,
        v.position == a.club_position,
{
    ProfileEditPageValue {
        year: decimal_string(a.year as i64),
        bio: a.bio,
        name: a.name,
        email: a.email,
        position: a.club_position,
    }
}

/// The year a profile edit stores: the submitted year where it parses as
/// an integer, 2025 otherwise.
pub open spec fn stored_year(year: Seq<char>) -> int {
    match parsed_i64(year) {
        Some(y) => y,
        None => 2025,
    }
}

/// What a profile edit writes to the member's row.
pub struct ProfileUpdate {
    pub name: String,
    pub bio: String,
    pub year: i64,
    pub position: String,
}

/// The row update of a submitted profile edit.
pub fn profile_update(input: ProfileEditPageValue) -> (u: ProfileUpdate)
    ensures
        u.name == input.name,
        u.bio == input.bio,
        u.year == stored_year(input.year@),
        u.position == input.position,
{
    let year = match parse_i64(input.year.as_str()) {
        Some(y) => y,
        None => 2025,
    };
    ProfileUpdate { name: input.name, bio: input.bio, year, position: input.position }
}

} // verus!

verus! {

/// Submitting the profile editor without touching the year keeps the year:
/// the year the page shows, parsed back, is the member's year.
pub proof fn lemma_profile_year_kept(year: i16)
    ensures
        stored_year(decimal(year as int)) == year,
{
    crate::numbers::lemma_parse_decimal(year as int);
}

} // verus!
