//! Access tokens, scopes and the audit log.
//!
//! Tokens are operational state: random, not derived from content.
use vstd::prelude::*;
use vstd::utf8::encode_utf8;

use crate::digest::{hex_encode, hex_text, sha256, sha256_digest};
use crate::error::{fails_with, BrainError, BrainErrorView};
use crate::rows::{
    dup_rows, find, first_n, first_where, holds, limited, map_rows, order, ordered, some_where,
    update, updated, Row,
};
use crate::tables::{
    dup_text, AuditRow, AuditRowView, RedactionRow, RedactionRowView, Tables, TablesView, TokenRow,
    TokenRowView,
};
use crate::text::{cat2, cat3, str_eq};
use crate::time::Timestamp;

verus! {

/// What a token allows its bearer to do.
#[derive(Debug, Clone, Copy, PartialEq, Eq, Structural)]
pub enum Capability {
    Read,
    Ingest,
    Write,
    Redact,
    Sample,
}

impl DeepView for Capability {
    type V = Capability;

    open spec fn deep_view(&self) -> Capability {
        *self
    }
}

/// The name of a capability.
pub open spec fn capability_text(c: Capability) -> Seq<char> {
    match c {
        Capability::Read => "read"@,
        Capability::Ingest => "ingest"@,
        Capability::Write => "write"@,
        Capability::Redact => "redact"@,
        Capability::Sample => "sample"@,
    }
}

impl Capability {
    /// The name of the capability.
    pub fn as_str(self) -> (r: &'static str)
        ensures
            r@ == capability_text(self),
    {
        match self {
            Capability::Read => "read",
            Capability::Ingest => "ingest",
            Capability::Write => "write",
            Capability::Redact => "redact",
            Capability::Sample => "sample",
        }
    }
}

/// A set of capabilities.
#[derive(Debug)]
pub struct CapabilitySet {
    caps: Vec<Capability>,
}

impl CapabilitySet {
    /// The capabilities in the set.
    pub closed spec fn set(&self) -> Set<Capability> {
        self.caps@.to_set()
    }

    pub fn new() -> (r: Self)
        ensures
            r.set() == Set::<Capability>::empty(),
    {
        let r = CapabilitySet { caps: Vec::new() };
        assert(r.set() =~= Set::empty());
        r
    }

    pub fn insert(&mut self, cap: Capability)
        ensures
            final(self).set() == old(self).set().insert(cap),
    {
        let ghost before = self.caps@;
        self.caps.push(cap);
        proof {
            Seq::lemma_push_to_set_commute(before, cap);
        }
    }

    pub fn contains(&self, cap: Capability) -> (r: bool)
        ensures
            r == self.set().contains(cap),
    {
        let mut i: usize = 0;
        while i < self.caps.len()
            invariant
                i <= self.caps.len(),
                forall|j: int| 0 <= j < i ==> #[trigger] self.caps@[j] != cap,
            decreases self.caps.len() - i,
        {
            if self.caps[i] == cap {
                assert(self.caps@.contains(cap));
                return true;
            }
            i = i + 1;
        }
        false
    }

    fn dup(&self) -> (r: Self)
        ensures
            r.set() == self.set(),
    {
        let mut caps: Vec<Capability> = Vec::new();
        let mut i: usize = 0;
        while i < self.caps.len()
            invariant
                i <= self.caps.len(),
                caps@ == self.caps@.take(i as int),
            decreases self.caps.len() - i,
        {
            caps.push(self.caps[i]);
            i = i + 1;
            assert(self.caps@.take(i as int) =~= self.caps@.take(i - 1).push(self.caps@[i - 1]));
        }
        assert(self.caps@.take(i as int) =~= self.caps@);
        CapabilitySet { caps }
    }
}

/// What a token gives access to: spaces, capabilities, and for how long.
#[derive(Debug)]
pub struct Scope {
    pub spaces: Vec<String>,
    pub caps: CapabilitySet,
    pub expires_at: Option<Timestamp>,
}

/// [`Scope`] as a mathematical value.
#[verifier::ext_equal]
pub struct ScopeView {
    pub spaces: Seq<Seq<char>>,
    pub caps: Set<Capability>,
    pub expires_at: Option<Timestamp>,
}

impl DeepView for Scope {
    type V = ScopeView;

    open spec fn deep_view(&self) -> ScopeView {
        ScopeView {
            spaces: self.spaces.deep_view(),
            caps: self.caps.set(),
            expires_at: self.expires_at,
        }
    }
}

/// A copy of a list of texts.
pub(crate) fn dup_texts(v: &Vec<String>) -> (r: Vec<String>)
    ensures
        r.deep_view() == v.deep_view(),
{
    let mut out: Vec<String> = Vec::new();
    let mut i: usize = 0;
    assert(out.deep_view() =~= v.deep_view().take(0));
    while i < v.len()
        invariant
            i <= v.len(),
            out.deep_view() == v.deep_view().take(i as int),
        decreases v.len() - i,
    {
        let ghost before = out.deep_view();
        out.push(v[i].clone());
        i = i + 1;
        assert(out.deep_view() =~= before.push(v.deep_view()[i - 1]));
        assert(v.deep_view().take(i as int) =~= v.deep_view().take(i - 1).push(
            v.deep_view()[i - 1],
        ));
    }
    assert(v.deep_view().take(i as int) =~= v.deep_view());
    out
}

impl Row for Scope {
    fn dup(&self) -> (r: Self) {
        Scope {
            spaces: dup_texts(&self.spaces),
            caps: self.caps.dup(),
            expires_at: self.expires_at,
        }
    }
}

impl Clone for Scope {
    fn clone(&self) -> (r: Self)
        ensures
            r.deep_view() == self.deep_view(),
    {
        self.dup()
    }
}

impl ScopeView {
    /// Whether the scope has run out.
    pub open spec fn expired(self, now: Timestamp) -> bool {
        match self.expires_at {
            Some(exp) => now.0 >= exp.0,
            None => false,
        }
    }
}

impl Scope {
    /// Whether the scope has run out.
    pub fn is_expired(&self, now: Timestamp) -> (r: bool)
        ensures
            r == self.deep_view().expired(now),
    {
        match self.expires_at {
            Some(exp) => now.0 >= exp.0,
            None => false,
        }
    }

    /// Whether the scope names a space.
    pub fn allows_space(&self, space: &str) -> (r: bool)
        ensures
            r == self.deep_view().spaces.contains(space@),
    {
        holds(&self.spaces, space)
    }
}

/// A token as it is shown: everything but the secret.
#[derive(Debug)]
pub struct TokenInfo {
    pub id: String,
    pub scope: Scope,
    pub issued_at: Timestamp,
    pub issued_by: String,
    pub revoked_at: Option<Timestamp>,
    pub label: Option<String>,
}

/// [`TokenInfo`] as a mathematical value.
#[verifier::ext_equal]
pub struct TokenInfoView {
    pub id: Seq<char>,
    pub scope: ScopeView,
    pub issued_at: Timestamp,
    pub issued_by: Seq<char>,
    pub revoked_at: Option<Timestamp>,
    pub label: Option<Seq<char>>,
}

impl DeepView for TokenInfo {
    type V = TokenInfoView;

    open spec fn deep_view(&self) -> TokenInfoView {
        TokenInfoView {
            id: self.id@,
            scope: self.scope.deep_view(),
            issued_at: self.issued_at,
            issued_by: self.issued_by@,
            revoked_at: self.revoked_at,
            label: self.label.deep_view(),
        }
    }
}

/// `getrandom::fill` into a buffer of 32 bytes: bytes from the operating
/// system's random source, or nothing where it has none to give. Nothing is
/// claimed of which bytes come.
#[verifier::external_body]
fn random_bytes() -> (r: Option<[u8; 32]>) {
    let mut bytes = [0u8; 32];
    match getrandom::fill(&mut bytes) {
        Ok(()) => Some(bytes),
        Err(_) => None,
    }
}

/// The secret that random bytes make.
pub open spec fn secret_text(bytes: Seq<u8>) -> Seq<char> {
    "obt_"@ + hex_text(bytes)
}

/// The secret that random bytes make: a prefix and their hexadecimal form.
pub fn secret_of(bytes: [u8; 32]) -> (r: String)
    ensures
        r@ == secret_text(bytes@),
{
    cat2("obt_", hex_encode(bytes.as_slice()).as_str())
}

/// Generate a token secret from 32 bytes of the operating system's random
/// source. None where the source is unavailable.
pub fn generate_secret() -> (r: Option<String>)
    ensures
        r matches Some(s) ==> exists|bytes: Seq<u8>|
            bytes.len() == 32 && s@ == #[trigger] secret_text(bytes),
{
    match random_bytes() {
        Some(bytes) => {
            assert(bytes@.len() == 32);
            Some(secret_of(bytes))
        },
        None => None,
    }
}

/// The stored form of a secret: its SHA-256 digest in hexadecimal.
pub open spec fn secret_hash(secret: Seq<char>) -> Seq<char> {
    hex_text(sha256_digest(encode_utf8(secret)))
}

/// SHA-256 hash of the token secret, hex-encoded.
pub fn hash_secret(secret: &str) -> (r: String)
    ensures
        r@ == secret_hash(secret@),
{
    hex_encode(sha256(secret.as_bytes()).as_slice())
}

/// The row that is stored for a new token.
pub open spec fn token_row(
    secret: Seq<char>,
    id: Seq<char>,
    scope: ScopeView,
    issued_by: Seq<char>,
    label: Option<Seq<char>>,
    now: Timestamp,
) -> TokenRowView {
    TokenRowView {
        id,
        token_hash: secret_hash(secret),
        scope,
        issued_at: now,
        issued_by,
        revoked_at: None,
        label,
    }
}

/// Issue a token for a secret, under the given id. Only the hash of the secret
/// is stored.
pub fn issue_token(
    db: &mut Tables,
    scope: &Scope,
    issued_by: &str,
    label: Option<String>,
    now: Timestamp,
    secret: &str,
    id: String,
) -> (r: TokenInfo)
    ensures
        final(db).deep_view() == (TablesView {
            tokens: old(db).deep_view().tokens.push(
                token_row(secret@, id@, scope.deep_view(), issued_by@, label.deep_view(), now),
            ),
            ..old(db).deep_view()
        }),
        r.deep_view() == (TokenInfoView {
            id: id@,
            scope: scope.deep_view(),
            issued_at: now,
            issued_by: issued_by@,
            revoked_at: None,
            label: label.deep_view(),
        }),
{
    let row = TokenRow {
        id: id.clone(),
        token_hash: hash_secret(secret),
        scope: scope.dup(),
        issued_at: now,
        issued_by: issued_by.to_owned(),
        revoked_at: None,
        label: dup_text(&label),
    };
    let ghost before = db.tokens.deep_view();
    let ghost added = row.deep_view();
    db.tokens.push(row);
    assert(db.tokens.deep_view() =~= before.push(added));
    TokenInfo {
        id,
        scope: scope.dup(),
        issued_at: now,
        issued_by: issued_by.to_owned(),
        revoked_at: None,
        label,
    }
}

/// Selects the token with the given stored hash.
pub open spec fn token_has_hash(hash: Seq<char>) -> spec_fn(TokenRowView) -> bool {
    |t: TokenRowView| t.token_hash == hash
}

/// The scope that a secret gives at a time: that of the token with its hash,
/// unless the token was revoked or its scope has run out.
pub open spec fn scope_for(
    tokens: Seq<TokenRowView>,
    secret: Seq<char>,
    now: Timestamp,
) -> Option<ScopeView> {
    match first_where(tokens, token_has_hash(secret_hash(secret))) {
        Some(t) => if t.revoked_at is Some || t.scope.expired(now) {
            None
        } else {
            Some(t.scope)
        },
        None => None,
    }
}

/// Verify a token by its secret. Returns the scope if the token is neither
/// expired nor revoked.
pub fn verify_token(db: &Tables, secret: &str, now: Timestamp) -> (r: Option<Scope>)
    ensures
        r.deep_view() == scope_for(db.deep_view().tokens, secret@, now),
{
    let hash = hash_secret(secret);
    match find(
        &db.tokens,
        |t: &TokenRow| -> (b: bool)
            ensures
                b == token_has_hash(hash@)(t.deep_view())
            { str_eq(t.token_hash.as_str(), hash.as_str()) },
        Ghost(token_has_hash(hash@)),
    ) {
        None => None,
        Some(i) => {
            assert(db.deep_view().tokens[i as int] == db.tokens[i as int].deep_view());
            if db.tokens[i].revoked_at.is_some() || db.tokens[i].scope.is_expired(now) {
                None
            } else {
                Some(db.tokens[i].scope.dup())
            }
        },
    }
}

/// Selects the token with the given id, unless it was revoked.
pub open spec fn is_active_token(id: Seq<char>) -> spec_fn(TokenRowView) -> bool {
    |t: TokenRowView| t.id == id && t.revoked_at is None
}

/// A token revoked at a time.
pub open spec fn revoked_row(now: Timestamp) -> spec_fn(TokenRowView) -> TokenRowView {
    |t: TokenRowView| TokenRowView { revoked_at: Some(now), ..t }
}

/// Revoke a token by id. An unknown or already revoked token is not found.
pub fn revoke_token(db: &mut Tables, id: &str, now: Timestamp) -> (r: Result<(), BrainError>)
    ensures
        final(db).deep_view() == (TablesView {
            tokens: updated(old(db).deep_view().tokens, is_active_token(id@), revoked_row(now)),
            ..old(db).deep_view()
        }),
        if some_where(old(db).deep_view().tokens, is_active_token(id@)) {
            r is Ok
        } else {
            fails_with(r, BrainErrorView::NotFound("token "@ + id@ + " (or already revoked)"@))
        },
{
    let found = find(
        &db.tokens,
        |t: &TokenRow| -> (b: bool)
            ensures
                b == is_active_token(id@)(t.deep_view())
            { str_eq(t.id.as_str(), id) && t.revoked_at.is_none() },
        Ghost(is_active_token(id@)),
    );
    let _n: usize = update(
        &mut db.tokens,
        |t: &TokenRow| -> (b: bool)
            ensures
                b == is_active_token(id@)(t.deep_view())
            { str_eq(t.id.as_str(), id) && t.revoked_at.is_none() },
        |t: &TokenRow| -> (y: TokenRow)
            ensures
                y.deep_view() == revoked_row(now)(t.deep_view())
            {
                let mut y = t.dup();
                y.revoked_at = Some(now);
                y
            },
        Ghost(is_active_token(id@)),
        Ghost(revoked_row(now)),
    );
    if found.is_none() {
        Err(BrainError::NotFound(cat3("token ", id, " (or already revoked)")))
    } else {
        Ok(())
    }
}

/// A secret that was just issued gives its scope until the scope runs out.
pub proof fn law_issued_token_verifies(
    tokens: Seq<TokenRowView>,
    secret: Seq<char>,
    id: Seq<char>,
    scope: ScopeView,
    issued_by: Seq<char>,
    label: Option<Seq<char>>,
    issued_at: Timestamp,
    now: Timestamp,
)
    requires
        !some_where(tokens, token_has_hash(secret_hash(secret))),
    ensures
        scope_for(
            tokens.push(token_row(secret, id, scope, issued_by, label, issued_at)),
            secret,
            now,
        ) == if scope.expired(now) {
            None
        } else {
            Some(scope)
        },
{
    let row = token_row(secret, id, scope, issued_by, label, issued_at);
    let p = token_has_hash(secret_hash(secret));
    let all = tokens.push(row);
    assert forall|j: int| 0 <= j < tokens.len() implies !p(#[trigger] all[j]) by {
        assert(all[j] == tokens[j]);
    }
    crate::rows::lemma_first_where(all, p, tokens.len() as int);
}

/// A secret gives a scope exactly while its token is neither revoked nor run out:
/// after it was issued under a new hash, and revoked or not, it gives the scope it
/// was issued with if and only if it was not revoked and the scope has not run
/// out, and nothing otherwise.
pub proof fn law_token_verifies_until_it_ends(
    tokens: Seq<TokenRowView>,
    secret: Seq<char>,
    id: Seq<char>,
    scope: ScopeView,
    issued_by: Seq<char>,
    label: Option<Seq<char>>,
    issued_at: Timestamp,
    revoked: Option<Timestamp>,
    now: Timestamp,
)
    requires
        !some_where(tokens, token_has_hash(secret_hash(secret))),
    ensures
        ({
            let issued = tokens.push(token_row(secret, id, scope, issued_by, label, issued_at));
            let after = match revoked {
                Some(t) => updated(issued, is_active_token(id), revoked_row(t)),
                None => issued,
            };
            &&& scope_for(after, secret, now) == Some(scope) <==> revoked is None
                && !scope.expired(now)
            &&& scope_for(after, secret, now) is Some ==> scope_for(after, secret, now) == Some(
                scope,
            )
        }),
{
    let row = token_row(secret, id, scope, issued_by, label, issued_at);
    let issued = tokens.push(row);
    let p = token_has_hash(secret_hash(secret));
    law_issued_token_verifies(tokens, secret, id, scope, issued_by, label, issued_at, now);
    assert forall|j: int| 0 <= j < tokens.len() implies !p(#[trigger] issued[j]) by {
        assert(issued[j] == tokens[j]);
    }
    crate::rows::lemma_first_where(issued, p, tokens.len() as int);
    match revoked {
        Some(t) => {
            law_revoked_token_is_refused(issued, secret, id, t, now);
        },
        None => {},
    }
}

/// A secret whose hash no token has gives nothing.
pub proof fn law_wrong_secret_is_refused(
    tokens: Seq<TokenRowView>,
    secret: Seq<char>,
    now: Timestamp,
)
    requires
        !some_where(tokens, token_has_hash(secret_hash(secret))),
    ensures
        scope_for(tokens, secret, now) is None,
{
    crate::rows::lemma_first_where(
        tokens,
        token_has_hash(secret_hash(secret)),
        tokens.len() as int,
    );
}

/// Once the token that a secret names was revoked, the secret gives nothing,
/// at any time.
pub proof fn law_revoked_token_is_refused(
    tokens: Seq<TokenRowView>,
    secret: Seq<char>,
    id: Seq<char>,
    revoked_at: Timestamp,
    now: Timestamp,
)
    requires
        first_where(tokens, token_has_hash(secret_hash(secret))) matches Some(t) && t.id == id,
    ensures
        scope_for(updated(tokens, is_active_token(id), revoked_row(revoked_at)), secret, now)
            is None,
{
    let p = token_has_hash(secret_hash(secret));
    let after = updated(tokens, is_active_token(id), revoked_row(revoked_at));
    lemma_first_index(tokens, p);
    let i = choose|i: int|
        0 <= i < tokens.len() && p(tokens[i]) && first_where(tokens, p) == Some(tokens[i])
            && forall|j: int| 0 <= j < i ==> !p(#[trigger] tokens[j]);
    assert forall|j: int| 0 <= j < i implies !p(#[trigger] after[j]) by {
        assert(after[j].token_hash == tokens[j].token_hash);
        assert(!p(tokens[j]));
    }
    assert(after[i].token_hash == tokens[i].token_hash);
    crate::rows::lemma_first_where(after, p, i);
    assert(after[i].revoked_at is Some);
}

/// Where some element is accepted, one of them is the first.
proof fn lemma_first_index<V>(s: Seq<V>, p: spec_fn(V) -> bool)
    requires
        first_where(s, p) is Some,
    ensures
        exists|i: int|
            0 <= i < s.len() && p(s[i]) && first_where(s, p) == Some(s[i]) && forall|j: int|
                0 <= j < i ==> !p(#[trigger] s[j]),
{
    lemma_first_index_from(s, p, 0);
}

proof fn lemma_first_index_from<V>(s: Seq<V>, p: spec_fn(V) -> bool, k: int)
    requires
        first_where(s, p) is Some,
        0 <= k <= s.len(),
        forall|j: int| 0 <= j < k ==> !p(#[trigger] s[j]),
    ensures
        exists|i: int|
            0 <= i < s.len() && p(s[i]) && first_where(s, p) == Some(s[i]) && forall|j: int|
                0 <= j < i ==> !p(#[trigger] s[j]),
    decreases s.len() - k,
{
    if k == s.len() {
        crate::rows::lemma_first_where(s, p, k);
    } else if p(s[k]) {
        crate::rows::lemma_first_where(s, p, k);
    } else {
        lemma_first_index_from(s, p, k + 1);
    }
}

/// A token as it is shown.
pub open spec fn token_info() -> spec_fn(TokenRowView) -> TokenInfoView {
    |t: TokenRowView|
        TokenInfoView {
            id: t.id,
            scope: t.scope,
            issued_at: t.issued_at,
            issued_by: t.issued_by,
            revoked_at: t.revoked_at,
            label: t.label,
        }
}

/// The order of tokens: by the time they were issued.
pub open spec fn by_issue() -> spec_fn(TokenInfoView, TokenInfoView) -> bool {
    |a: TokenInfoView, b: TokenInfoView| a.issued_at.0 <= b.issued_at.0
}

/// List all tokens (active and revoked), in the order they were issued.
pub fn list_tokens(db: &Tables) -> (r: Vec<TokenInfo>)
    ensures
        r.deep_view() == ordered(db.deep_view().tokens.map_values(token_info()), by_issue()),
{
    let all = map_rows(
        &db.tokens,
        |t: &TokenRow| -> (i: TokenInfo)
            ensures
                i.deep_view() == token_info()(t.deep_view())
            {
                TokenInfo {
                    id: t.id.clone(),
                    scope: t.scope.dup(),
                    issued_at: t.issued_at,
                    issued_by: t.issued_by.clone(),
                    revoked_at: t.revoked_at,
                    label: dup_text(&t.label),
                }
            },
        Ghost(token_info()),
    );
    order(
        all,
        |a: &TokenInfo, b: &TokenInfo| -> (le: bool)
            ensures
                le == by_issue()(a.deep_view(), b.deep_view())
            { a.issued_at.0 <= b.issued_at.0 },
        Ghost(by_issue()),
    )
}

/// The greatest id in the audit log, or zero where it is empty.
pub open spec fn top_audit_id(rows: Seq<AuditRowView>) -> int
    decreases rows.len(),
{
    if rows.len() == 0 {
        0
    } else {
        let top = top_audit_id(rows.drop_last());
        if rows.last().id > top {
            rows.last().id as int
        } else {
            top
        }
    }
}

/// Whether the audit log has an id left.
pub open spec fn audit_fits(rows: Seq<AuditRowView>) -> bool {
    forall|i: int| 0 <= i < rows.len() ==> (#[trigger] rows[i]).id < i64::MAX
}

/// The tables with one more entry at the end of the audit log.
pub open spec fn with_audit(
    db: TablesView,
    actor: Seq<char>,
    scope: Option<Seq<char>>,
    operation: Seq<char>,
    target: Option<Seq<char>>,
    detail_json: Option<Seq<char>>,
    now: Timestamp,
) -> TablesView {
    TablesView {
        audit: db.audit.push(
            AuditRowView {
                id: (top_audit_id(db.audit) + 1) as i64,
                ts: now,
                actor,
                scope,
                operation,
                target,
                detail_json,
            },
        ),
        ..db
    }
}

fn next_audit_id(rows: &Vec<AuditRow>) -> (r: i64)
    requires
        audit_fits(rows.deep_view()),
    ensures
        r == top_audit_id(rows.deep_view()) + 1,
{
    let ghost all = rows.deep_view();
    let mut top: i64 = 0;
    let mut i: usize = 0;
    while i < rows.len()
        invariant
            i <= rows.len(),
            all == rows.deep_view(),
            audit_fits(all),
            top == top_audit_id(all.take(i as int)),
            0 <= top < i64::MAX,
        decreases rows.len() - i,
    {
        proof {
            assert(all.take(i + 1).drop_last() =~= all.take(i as int));
            assert(all.take(i + 1).last() == all[i as int]);
            assert(all[i as int].id < i64::MAX);
        }
        if rows[i].id > top {
            top = rows[i].id;
        }
        i = i + 1;
    }
    assert(all.take(i as int) =~= all);
    top + 1
}

/// Write an audit entry. Called before acting.
pub fn write_audit(
    db: &mut Tables,
    actor: &str,
    scope: Option<String>,
    operation: &str,
    target: Option<String>,
    detail_json: Option<String>,
    now: Timestamp,
)
    requires
        audit_fits(old(db).deep_view().audit),
    ensures
        final(db).deep_view() == with_audit(
            old(db).deep_view(),
            actor@,
            scope.deep_view(),
            operation@,
            target.deep_view(),
            detail_json.deep_view(),
            now,
        ),
{
    let id: i64 = next_audit_id(&db.audit);
    let row = AuditRow {
        id,
        ts: now,
        actor: actor.to_owned(),
        scope,
        operation: operation.to_owned(),
        target,
        detail_json,
    };
    let ghost before = db.audit.deep_view();
    let ghost added = row.deep_view();
    db.audit.push(row);
    assert(db.audit.deep_view() =~= before.push(added));
}

/// The order of audit entries: the most recent first.
pub open spec fn by_recency() -> spec_fn(AuditRowView, AuditRowView) -> bool {
    |a: AuditRowView, b: AuditRowView| a.ts.0 >= b.ts.0
}

/// The first entries up to a limit; a negative limit is none.
pub open spec fn up_to<V>(s: Seq<V>, limit: int) -> Seq<V> {
    if limit < 0 {
        s
    } else {
        first_n(s, limit as nat)
    }
}

/// List recent audit entries, most recent first: at most `limit`, or a hundred
/// where no limit is given.
pub fn list_audit(db: &Tables, limit: Option<i64>) -> (r: Vec<AuditRow>)
    ensures
        r.deep_view() == up_to(
            ordered(db.deep_view().audit, by_recency()),
            match limit {
                Some(n) => n as int,
                None => 100,
            },
        ),
{
    let n: i64 = match limit {
        Some(n) => n,
        None => 100,
    };
    let all = order(
        dup_rows(&db.audit),
        |a: &AuditRow, b: &AuditRow| -> (le: bool)
            ensures
                le == by_recency()(a.deep_view(), b.deep_view())
            { a.ts.0 >= b.ts.0 },
        Ghost(by_recency()),
    );
    if n < 0 || n as u64 >= all.len() as u64 {
        assert(all.deep_view().len() == all.len());
        all
    } else {
        limited(all, n as usize)
    }
}

/// The order of recorded redactions: by time.
pub open spec fn by_redaction_time() -> spec_fn(RedactionRowView, RedactionRowView) -> bool {
    |a: RedactionRowView, b: RedactionRowView| a.redacted_at.0 <= b.redacted_at.0
}

/// All recorded redactions, oldest first.
pub fn list_redactions(db: &Tables) -> (r: Vec<RedactionRow>)
    ensures
        r.deep_view() == ordered(db.deep_view().redactions, by_redaction_time()),
{
    order(
        dup_rows(&db.redactions),
        |a: &RedactionRow, b: &RedactionRow| -> (le: bool)
            ensures
                le == by_redaction_time()(a.deep_view(), b.deep_view())
            { a.redacted_at.0 <= b.redacted_at.0 },
        Ghost(by_redaction_time()),
    )
}

} // verus!
