//! What the library knows of the Bitbucket Cloud HTTP API without making a call: how a
//! response status is classified, when a call is retried, and how the entries of a listing
//! become repos, grants and members. The calls themselves are made around the library.

use vstd::prelude::*;

use crate::normalize::{RawGroupPermission, RawMember, RawUserPermission};

verus! {

/// The failure classes the callers treat differently: `Unauthorized` aborts a whole Run,
/// `RateLimited` is retried once before it surfaces, `Other` is any other failure.
#[derive(Debug, PartialEq, Eq)]
pub enum ClientError {
    Unauthorized,
    RateLimited,
    Other(String),
}

impl Clone for ClientError {
    fn clone(&self) -> (r: Self)
        ensures
            r == *self,
    {
        match self {
            ClientError::Unauthorized => ClientError::Unauthorized,
            ClientError::RateLimited => ClientError::RateLimited,
            ClientError::Other(m) => ClientError::Other(m.clone()),
        }
    }
}

/// One repository of the workspace, with the key of the Project that owns it.
#[derive(Debug, PartialEq, Eq)]
pub struct RepoInfo {
    pub repo_project: String,
    pub repo: String,
}

impl Clone for RepoInfo {
    fn clone(&self) -> (r: Self)
        ensures
            r == *self,
    {
        RepoInfo { repo_project: self.repo_project.clone(), repo: self.repo.clone() }
    }
}

/// The principal of a permission write: a user by `account_id`, or a group by slug.
#[derive(Debug, PartialEq, Eq, Hash)]
pub enum PrincipalRef {
    Direct(String),
    Group(String),
}

impl Clone for PrincipalRef {
    fn clone(&self) -> (r: Self)
        ensures
            r == *self,
    {
        match self {
            PrincipalRef::Direct(id) => PrincipalRef::Direct(id.clone()),
            PrincipalRef::Group(id) => PrincipalRef::Group(id.clone()),
        }
    }
}

/// The character of one decimal digit.
pub open spec fn digit_char(d: int) -> char {
    if d == 0 {
        '0'
    } else if d == 1 {
        '1'
    } else if d == 2 {
        '2'
    } else if d == 3 {
        '3'
    } else if d == 4 {
        '4'
    } else if d == 5 {
        '5'
    } else if d == 6 {
        '6'
    } else if d == 7 {
        '7'
    } else if d == 8 {
        '8'
    } else {
        '9'
    }
}

/// The decimal digits of `n`, most significant first.
pub open spec fn decimal_text(n: nat) -> Seq<char>
    decreases n,
{
    if n < 10 {
        seq![digit_char(n as int)]
    } else {
        decimal_text(n / 10).push(digit_char((n % 10) as int))
    }
}

/// The message of an unexpected response status.
pub open spec fn unexpected_status_text(code: u16) -> Seq<char> {
    seq!['u', 'n', 'e', 'x', 'p', 'e', 'c', 't', 'e', 'd', ' ', 's', 't', 'a', 't', 'u', 's', ' ']
        + decimal_text(code as nat)
}

fn digit_string(d: u64) -> (s: String)
    requires
        d < 10,
    ensures
        s@ == seq![digit_char(d as int)],
{
    proof {
        reveal_strlit("0");
        reveal_strlit("1");
        reveal_strlit("2");
        reveal_strlit("3");
        reveal_strlit("4");
        reveal_strlit("5");
        reveal_strlit("6");
        reveal_strlit("7");
        reveal_strlit("8");
        reveal_strlit("9");
    }
    let t = if d == 0 {
        "0"
    } else if d == 1 {
        "1"
    } else if d == 2 {
        "2"
    } else if d == 3 {
        "3"
    } else if d == 4 {
        "4"
    } else if d == 5 {
        "5"
    } else if d == 6 {
        "6"
    } else if d == 7 {
        "7"
    } else if d == 8 {
        "8"
    } else {
        "9"
    };
    assert(t@ =~= seq![digit_char(d as int)]);
    t.to_owned()
}

/// The decimal digits of `n`.
pub fn decimal(n: u64) -> (s: String)
    ensures
        s@ == decimal_text(n as nat),
    decreases n,
{
    if n < 10 {
        digit_string(n)
    } else {
        let head = decimal(n / 10);
        let last = digit_string(n % 10);
        let s = head.concat(last.as_str());
        assert(s@ =~= decimal_text(n as nat));
        s
    }
}

/// The decimal form of a signed number: a minus sign before the digits of a negative one.
pub open spec fn signed_decimal_text(n: int) -> Seq<char> {
    if n < 0 {
        seq!['-'] + decimal_text((-n) as nat)
    } else {
        decimal_text(n as nat)
    }
}

/// The decimal form of a signed number.
pub fn signed_decimal(n: i64) -> (s: String)
    ensures
        s@ == signed_decimal_text(n as int),
{
    if n < 0 {
        let magnitude: u64 = (0i128 - (n as i128)) as u64;
        let minus = String::from_str("-");
        proof {
            reveal_strlit("-");
        }
        let digits = decimal(magnitude);
        let s = minus.concat(digits.as_str());
        assert(s@ =~= signed_decimal_text(n as int));
        s
    } else {
        decimal(n as u64)
    }
}

/// `r` is the error response status `code` stands for: none for `200`, `Unauthorized`
/// for `401`, `RateLimited` for `429`, and an "unexpected status" failure for anything
/// else.
pub open spec fn is_status_error(code: u16, r: Option<ClientError>) -> bool {
    if code == 200 {
        r is None
    } else if code == 401 {
        r == Some(ClientError::Unauthorized)
    } else if code == 429 {
        r == Some(ClientError::RateLimited)
    } else {
        r matches Some(ClientError::Other(m)) && m@ == unexpected_status_text(code)
    }
}

/// The error a response status stands for: none for `200`, `Unauthorized` for `401`,
/// `RateLimited` for `429`, and an "unexpected status" failure for anything else.
pub fn status_error(code: u16) -> (r: Option<ClientError>)
    ensures
        is_status_error(code, r),
{
    if code == 200 {
        None
    } else if code == 401 {
        Some(ClientError::Unauthorized)
    } else if code == 429 {
        Some(ClientError::RateLimited)
    } else {
        let prefix = String::from_str("unexpected status ");
        proof {
            reveal_strlit("unexpected status ");
        }
        let digits = decimal(code as u64);
        let m = prefix.concat(digits.as_str());
        assert(m@ =~= unexpected_status_text(code));
        Some(ClientError::Other(m))
    }
}

/// Whether a failed call is tried once more: only when it was rate limited, never for an
/// `Unauthorized`.
pub fn retried_after(e: &ClientError) -> (r: bool)
    ensures
        r == (*e is RateLimited),
{
    match e {
        ClientError::RateLimited => true,
        _ => false,
    }
}

/// One entry of the workspace repo listing, with the fields the listing may lack.
#[derive(Debug, Clone, PartialEq, Eq)]
pub struct RepoEntry {
    pub slug: Option<String>,
    pub project_key: Option<String>,
}

/// One entry of a direct-grant listing, with the fields the listing may lack.
#[derive(Debug, Clone, PartialEq, Eq)]
pub struct UserGrantEntry {
    pub account_id: Option<String>,
    pub display_name: Option<String>,
    pub permission: Option<String>,
}

/// One entry of a group-grant listing, with the fields the listing may lack.
#[derive(Debug, Clone, PartialEq, Eq)]
pub struct GroupGrantEntry {
    pub group_slug: Option<String>,
    pub group_name: Option<String>,
    pub permission: Option<String>,
}

/// One entry of a group's member listing, with the fields the listing may lack.
#[derive(Debug, Clone, PartialEq, Eq)]
pub struct MemberEntry {
    pub account_id: Option<String>,
    pub display_name: Option<String>,
}

/// The repos of the complete entries, in listing order; an entry without a slug or a
/// Project key is skipped.
pub open spec fn repos_of(entries: Seq<RepoEntry>) -> Seq<RepoInfo>
    decreases entries.len(),
{
    if entries.len() == 0 {
        Seq::empty()
    } else {
        let rest = repos_of(entries.drop_last());
        match (entries.last().slug, entries.last().project_key) {
            (Some(s), Some(k)) => rest.push(RepoInfo { repo_project: k, repo: s }),
            _ => rest,
        }
    }
}

/// The grants of the complete entries, in listing order.
pub open spec fn user_grants_of(entries: Seq<UserGrantEntry>) -> Seq<RawUserPermission>
    decreases entries.len(),
{
    if entries.len() == 0 {
        Seq::empty()
    } else {
        let rest = user_grants_of(entries.drop_last());
        let e = entries.last();
        match (e.account_id, e.display_name, e.permission) {
            (Some(a), Some(d), Some(p)) => rest.push(RawUserPermission { account_id: a, display_name: d, permission: p }),
            _ => rest,
        }
    }
}

/// The group grants of the complete entries, in listing order.
pub open spec fn group_grants_of(entries: Seq<GroupGrantEntry>) -> Seq<RawGroupPermission>
    decreases entries.len(),
{
    if entries.len() == 0 {
        Seq::empty()
    } else {
        let rest = group_grants_of(entries.drop_last());
        let e = entries.last();
        match (e.group_slug, e.group_name, e.permission) {
            (Some(s), Some(n), Some(p)) => rest.push(RawGroupPermission { group_slug: s, group_name: n, permission: p }),
            _ => rest,
        }
    }
}

/// The members of the complete entries, in listing order.
pub open spec fn members_of(entries: Seq<MemberEntry>) -> Seq<RawMember>
    decreases entries.len(),
{
    if entries.len() == 0 {
        Seq::empty()
    } else {
        let rest = members_of(entries.drop_last());
        let e = entries.last();
        match (e.account_id, e.display_name) {
            (Some(a), Some(d)) => rest.push(RawMember { account_id: a, display_name: d }),
            _ => rest,
        }
    }
}

/// The repos of a listing, skipping entries without a slug or Project key.
pub fn repos_from_entries(entries: Vec<RepoEntry>) -> (r: Vec<RepoInfo>)
    ensures
        r@ == repos_of(entries@),
{
    let mut out: Vec<RepoInfo> = Vec::new();
    let mut i: usize = 0;
    while i < entries.len()
        invariant
            i <= entries.len(),
            out@ == repos_of(entries@.take(i as int)),
        decreases entries.len() - i,
    {
        let e = &entries[i];
        assert(entries@.take(i + 1).drop_last() =~= entries@.take(i as int));
        match (&e.slug, &e.project_key) {
            (Some(s), Some(k)) => {
                out.push(RepoInfo { repo_project: k.clone(), repo: s.clone() });
            },
            _ => {},
        }
        i = i + 1;
    }
    assert(entries@.take(entries.len() as int) =~= entries@);
    out
}

/// The direct grants of a listing, skipping incomplete entries.
pub fn user_grants_from_entries(entries: Vec<UserGrantEntry>) -> (r: Vec<RawUserPermission>)
    ensures
        r@ == user_grants_of(entries@),
{
    let mut out: Vec<RawUserPermission> = Vec::new();
    let mut i: usize = 0;
    while i < entries.len()
        invariant
            i <= entries.len(),
            out@ == user_grants_of(entries@.take(i as int)),
        decreases entries.len() - i,
    {
        let e = &entries[i];
        assert(entries@.take(i + 1).drop_last() =~= entries@.take(i as int));
        match (&e.account_id, &e.display_name, &e.permission) {
            (Some(a), Some(d), Some(p)) => {
                out.push(RawUserPermission { account_id: a.clone(), display_name: d.clone(), permission: p.clone() });
            },
            _ => {},
        }
        i = i + 1;
    }
    assert(entries@.take(entries.len() as int) =~= entries@);
    out
}

/// The group grants of a listing, skipping incomplete entries.
pub fn group_grants_from_entries(entries: Vec<GroupGrantEntry>) -> (r: Vec<RawGroupPermission>)
    ensures
        r@ == group_grants_of(entries@),
{
    let mut out: Vec<RawGroupPermission> = Vec::new();
    let mut i: usize = 0;
    while i < entries.len()
        invariant
            i <= entries.len(),
            out@ == group_grants_of(entries@.take(i as int)),
        decreases entries.len() - i,
    {
        let e = &entries[i];
        assert(entries@.take(i + 1).drop_last() =~= entries@.take(i as int));
        match (&e.group_slug, &e.group_name, &e.permission) {
            (Some(s), Some(n), Some(p)) => {
                out.push(RawGroupPermission { group_slug: s.clone(), group_name: n.clone(), permission: p.clone() });
            },
            _ => {},
        }
        i = i + 1;
    }
    assert(entries@.take(entries.len() as int) =~= entries@);
    out
}

/// The members of a listing, skipping incomplete entries.
pub fn members_from_entries(entries: Vec<MemberEntry>) -> (r: Vec<RawMember>)
    ensures
        r@ == members_of(entries@),
{
    let mut out: Vec<RawMember> = Vec::new();
    let mut i: usize = 0;
    while i < entries.len()
        invariant
            i <= entries.len(),
            out@ == members_of(entries@.take(i as int)),
        decreases entries.len() - i,
    {
        let e = &entries[i];
        assert(entries@.take(i + 1).drop_last() =~= entries@.take(i as int));
        match (&e.account_id, &e.display_name) {
            (Some(a), Some(d)) => {
                out.push(RawMember { account_id: a.clone(), display_name: d.clone() });
            },
            _ => {},
        }
        i = i + 1;
    }
    assert(entries@.take(entries.len() as int) =~= entries@);
    out
}

/// The error the response status of a permission write stands for: none for `200`, `201`
/// and `204` (a write answers with no body), otherwise as for a read.
pub fn write_status_error(code: u16) -> (r: Option<ClientError>)
    ensures
        code == 200 || code == 201 || code == 204 ==> r is None,
        !(code == 200 || code == 201 || code == 204) ==> is_status_error(code, r),
{
    if code == 201 || code == 204 {
        None
    } else {
        status_error(code)
    }
}

} // verus!
