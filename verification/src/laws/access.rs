//! Tokens, the audit log, the record of redactions, and stored values.
use vstd::prelude::*;

use crate::digest::hex_text;
use crate::documents::{meta_at, meta_value, meta_written};
use crate::meta::with_default;
use crate::rows::{
    first_where, is_order, lemma_first_is, lemma_ordered_in_order, lemma_ordered_members, ordered,
    some_where, updated,
};
use crate::security::{
    by_issue, by_recency, by_redaction_time, is_active_token, revoked_row, scope_for, secret_hash,
    secret_text, token_has_hash, token_info, token_row, top_audit_id, up_to, with_audit, ScopeView,
    TokenInfoView,
};
use crate::tables::{AuditRowView, MetaRowView, RedactionRowView, TablesView, TokenRowView};
use crate::time::Timestamp;

verus! {

/// A secret gives a scope only through a token with its hash that is not revoked
/// and whose time, where it has one, has not come; and where no token has its
/// hash, or every one that does is revoked or over, it gives none.
pub proof fn law_scope_comes_from_a_live_token(
    tokens: Seq<TokenRowView>,
    secret: Seq<char>,
    now: Timestamp,
)
    ensures
        scope_for(tokens, secret, now) matches Some(scope) ==> exists|i: int|
            0 <= i < tokens.len() && (#[trigger] tokens[i]).token_hash == secret_hash(secret)
                && tokens[i].revoked_at is None && (tokens[i].scope.expires_at is Some ==> now.0
                < tokens[i].scope.expires_at->Some_0.0) && tokens[i].scope == scope,
        (forall|i: int|
            0 <= i < tokens.len() && (#[trigger] tokens[i]).token_hash == secret_hash(secret)
                ==> tokens[i].revoked_at is Some || (tokens[i].scope.expires_at is Some
                && tokens[i].scope.expires_at->Some_0.0 <= now.0)) ==> scope_for(
            tokens,
            secret,
            now,
        ) is None,
        (exists|i: int|
            0 <= i < tokens.len() && (#[trigger] tokens[i]).token_hash == secret_hash(secret)) && (
        forall|i: int|
            0 <= i < tokens.len() && (#[trigger] tokens[i]).token_hash == secret_hash(secret)
                ==> tokens[i].revoked_at is None && (tokens[i].scope.expires_at is Some ==> now.0
                < tokens[i].scope.expires_at->Some_0.0)) ==> scope_for(tokens, secret, now) is Some,
{
    let p = token_has_hash(secret_hash(secret));
    lemma_first_is(tokens, p);
    if first_where(tokens, p) is Some {
        let t = first_where(tokens, p)->Some_0;
        let i = choose|i: int| 0 <= i < tokens.len() && tokens[i] == t;
        assert(tokens[i].token_hash == secret_hash(secret));
    }
    if exists|i: int|
        0 <= i < tokens.len() && (#[trigger] tokens[i]).token_hash == secret_hash(secret) {
        let i = choose|i: int|
            0 <= i < tokens.len() && (#[trigger] tokens[i]).token_hash == secret_hash(secret);
        assert(p(tokens[i]));
    }
}

/// A scope is over from the moment of its end on; without an end it never is.
pub proof fn law_scope_ends_at_its_time(scope: ScopeView, now: Timestamp)
    ensures
        scope.expired(now) <==> scope.expires_at is Some && scope.expires_at->Some_0.0 <= now.0,
{
}

/// A token is kept by the hash of its secret, with its scope, who issued it, when
/// and under what label, and is not revoked.
pub proof fn law_token_is_kept_by_its_hash(
    secret: Seq<char>,
    id: Seq<char>,
    scope: ScopeView,
    issued_by: Seq<char>,
    label: Option<Seq<char>>,
    now: Timestamp,
)
    ensures
        ({
            let t = token_row(secret, id, scope, issued_by, label, now);
            &&& t.id == id
            &&& t.token_hash == secret_hash(secret)
            &&& t.scope == scope
            &&& t.issued_at == now
            &&& t.issued_by == issued_by
            &&& t.revoked_at is None
            &&& t.label == label
        }),
{
}

/// The text of a secret starts with its mark, and holds its bytes two letters each.
pub proof fn law_secret_shows_its_bytes(bytes: Seq<u8>)
    ensures
        secret_text(bytes).len() == 4 + 2 * bytes.len(),
        secret_text(bytes).take(4) == "obt_"@,
        secret_text(bytes).skip(4) == hex_text(bytes),
{
    reveal_strlit("obt_");
    assert(secret_text(bytes).take(4) =~= "obt_"@);
    assert(secret_text(bytes).skip(4) =~= hex_text(bytes));
}

/// Revoking a token marks the tokens of its id that are not revoked, as of now;
/// one that is revoked keeps its time, and no other token changes.
pub proof fn law_revocation_marks_the_token(
    tokens: Seq<TokenRowView>,
    id: Seq<char>,
    now: Timestamp,
)
    ensures
        ({
            let after = updated(tokens, is_active_token(id), revoked_row(now));
            &&& after.len() == tokens.len()
            &&& forall|i: int|
                #![trigger after[i]]
                0 <= i < tokens.len() ==> {
                    &&& after[i].revoked_at == if tokens[i].id == id
                        && tokens[i].revoked_at is None {
                        Some(now)
                    } else {
                        tokens[i].revoked_at
                    }
                    &&& after[i] == (TokenRowView { revoked_at: after[i].revoked_at, ..tokens[i] })
                }
            &&& some_where(tokens, is_active_token(id)) <==> exists|i: int|
                0 <= i < tokens.len() && (#[trigger] tokens[i]).id == id
                    && tokens[i].revoked_at is None
        }),
{
    if exists|i: int|
        0 <= i < tokens.len() && (#[trigger] tokens[i]).id == id && tokens[i].revoked_at is None {
        let i = choose|i: int|
            0 <= i < tokens.len() && (#[trigger] tokens[i]).id == id
                && tokens[i].revoked_at is None;
        assert(is_active_token(id)(tokens[i]));
    }
}

/// Tokens are listed in the order in which they were issued, all of them, without
/// their hashes.
pub proof fn law_tokens_are_listed_by_issue(tokens: Seq<TokenRowView>)
    ensures
        ({
            let r = ordered(tokens.map_values(token_info()), by_issue());
            &&& r.len() == tokens.len()
            &&& forall|i: int, j: int|
                0 <= i < j < r.len() ==> (#[trigger] r[i]).issued_at.0 <= (
                #[trigger] r[j]).issued_at.0
            &&& forall|i: int|
                0 <= i < tokens.len() ==> r.contains(
                    TokenInfoView {
                        id: (#[trigger] tokens[i]).id,
                        scope: tokens[i].scope,
                        issued_at: tokens[i].issued_at,
                        issued_by: tokens[i].issued_by,
                        revoked_at: tokens[i].revoked_at,
                        label: tokens[i].label,
                    },
                )
        }),
{
    let all = tokens.map_values(token_info());
    let leq = by_issue();
    let r = ordered(all, leq);
    assert(is_order(leq));
    lemma_ordered_members(all, leq);
    lemma_ordered_in_order(all, leq);
    assert forall|i: int, j: int| 0 <= i < j < r.len() implies (#[trigger] r[i]).issued_at.0 <= (
    #[trigger] r[j]).issued_at.0 by {
        assert(leq(r[i], r[j]));
    }
    assert forall|i: int| 0 <= i < tokens.len() implies r.contains(
        TokenInfoView {
            id: (#[trigger] tokens[i]).id,
            scope: tokens[i].scope,
            issued_at: tokens[i].issued_at,
            issued_by: tokens[i].issued_by,
            revoked_at: tokens[i].revoked_at,
            label: tokens[i].label,
        },
    ) by {
        assert(all[i] == token_info()(tokens[i]));
        assert(all.contains(all[i]));
    }
}

/// The ids of audit entries count up: none is above the top one.
proof fn lemma_top_audit(rows: Seq<AuditRowView>)
    ensures
        forall|i: int| 0 <= i < rows.len() ==> (#[trigger] rows[i]).id <= top_audit_id(rows),
        top_audit_id(rows) >= 0,
        top_audit_id(rows) > 0 ==> exists|i: int|
            0 <= i < rows.len() && (#[trigger] rows[i]).id == top_audit_id(rows),
    decreases rows.len(),
{
    if rows.len() > 0 {
        let init = rows.drop_last();
        lemma_top_audit(init);
        let n = rows.len() - 1;
        assert forall|i: int| 0 <= i < rows.len() implies (#[trigger] rows[i]).id <= top_audit_id(
            rows,
        ) by {
            if i < n {
                assert(init[i] == rows[i]);
            }
        }
        if rows[n].id > top_audit_id(init) {
            assert(rows[n].id == top_audit_id(rows));
        } else if top_audit_id(rows) > 0 {
            let i = choose|i: int|
                0 <= i < init.len() && (#[trigger] init[i]).id == top_audit_id(init);
            assert(rows[i].id == top_audit_id(rows));
        }
    }
}

/// The audit log only grows: an entry comes last, under a new id, with who did what
/// to what, when and why.
pub proof fn law_audit_entry_is_added(
    db: TablesView,
    actor: Seq<char>,
    scope: Option<Seq<char>>,
    operation: Seq<char>,
    target: Option<Seq<char>>,
    detail_json: Option<Seq<char>>,
    now: Timestamp,
)
    requires
        crate::security::audit_fits(db.audit),
    ensures
        ({
            let after = with_audit(db, actor, scope, operation, target, detail_json, now);
            let a = after.audit.last();
            &&& after.audit.len() == db.audit.len() + 1
            &&& after.audit.drop_last() == db.audit
            &&& a.actor == actor
            &&& a.scope == scope
            &&& a.operation == operation
            &&& a.target == target
            &&& a.detail_json == detail_json
            &&& a.ts == now
            &&& forall|i: int| 0 <= i < db.audit.len() ==> (#[trigger] db.audit[i]).id < a.id
            &&& after == (TablesView { audit: after.audit, ..db })
        }),
{
    let after = with_audit(db, actor, scope, operation, target, detail_json, now);
    lemma_top_audit(db.audit);
    assert(after.audit.drop_last() =~= db.audit);
}

/// The audit log is listed latest first, up to the limit, and no entry that is left
/// out is later than one that is listed; a limit below nought is none.
pub proof fn law_audit_is_listed_latest_first(audit: Seq<AuditRowView>, limit: int)
    ensures
        ({
            let r = up_to(ordered(audit, by_recency()), limit);
            &&& limit >= 0 ==> r.len() == if limit < audit.len() {
                limit
            } else {
                audit.len() as int
            }
            &&& limit < 0 ==> r.len() == audit.len()
            &&& forall|i: int, j: int|
                0 <= i < j < r.len() ==> (#[trigger] r[i]).ts.0 >= (#[trigger] r[j]).ts.0
            &&& forall|i: int| 0 <= i < r.len() ==> audit.contains(#[trigger] r[i])
            &&& forall|a: AuditRowView, i: int|
                #![trigger audit.contains(a), r[i]]
                audit.contains(a) && !r.contains(a) && 0 <= i < r.len() ==> r[i].ts.0 >= a.ts.0
        }),
{
    let leq = by_recency();
    let all = ordered(audit, leq);
    let r = up_to(all, limit);
    assert(is_order(leq));
    lemma_ordered_members(audit, leq);
    lemma_ordered_in_order(audit, leq);
    assert forall|i: int| 0 <= i < r.len() implies audit.contains(#[trigger] r[i]) by {
        assert(r[i] == all[i]);
        assert(all.contains(all[i]));
    }
    assert forall|i: int, j: int| 0 <= i < j < r.len() implies (#[trigger] r[i]).ts.0 >= (
    #[trigger] r[j]).ts.0 by {
        assert(leq(all[i], all[j]));
    }
    assert forall|a: AuditRowView, i: int|
        #![trigger audit.contains(a), r[i]]
        audit.contains(a) && !r.contains(a) && 0 <= i < r.len() implies r[i].ts.0 >= a.ts.0 by {
        assert(all.contains(a));
        let k = choose|k: int| 0 <= k < all.len() && all[k] == a;
        if k < r.len() {
            assert(r[k] == a);
        }
        assert(leq(all[i], all[k]));
    }
}

/// Redactions are listed in the order in which they were made, all of them.
pub proof fn law_redactions_are_listed_in_order(rows: Seq<RedactionRowView>)
    ensures
        ({
            let r = ordered(rows, by_redaction_time());
            &&& forall|i: int, j: int|
                0 <= i < j < r.len() ==> (#[trigger] r[i]).redacted_at.0 <= (
                #[trigger] r[j]).redacted_at.0
            &&& forall|x: RedactionRowView| #[trigger] r.contains(x) <==> rows.contains(x)
            &&& r.len() == rows.len()
        }),
{
    let leq = by_redaction_time();
    let r = ordered(rows, leq);
    assert(is_order(leq));
    lemma_ordered_members(rows, leq);
    lemma_ordered_in_order(rows, leq);
    assert forall|i: int, j: int| 0 <= i < j < r.len() implies (#[trigger] r[i]).redacted_at.0 <= (
    #[trigger] r[j]).redacted_at.0 by {
        assert(leq(r[i], r[j]));
    }
}

/// A stored value is read by its key; writing one changes no other key.
pub proof fn law_values_are_stored_by_key(
    meta: Seq<MetaRowView>,
    key: Seq<char>,
    value: Seq<char>,
    other: Seq<char>,
)
    ensures
        match meta_value(meta, key) {
            Some(v) => exists|i: int|
                0 <= i < meta.len() && (#[trigger] meta[i]).key == key && meta[i].value == v,
            None => forall|i: int| 0 <= i < meta.len() ==> (#[trigger] meta[i]).key != key,
        },
        meta_value(meta_written(meta, key, value), key) == Some(value),
        other != key ==> meta_value(meta_written(meta, key, value), other) == meta_value(
            meta,
            other,
        ),
        with_default(meta, key, value) == if meta_value(meta, key) is Some {
            meta
        } else {
            meta_written(meta, key, value)
        },
{
    let p = meta_at(key);
    let q = meta_at(other);
    let after = meta_written(meta, key, value);
    lemma_first_is(meta, p);
    lemma_first_is(meta, q);
    lemma_first_is(after, p);
    lemma_first_is(after, q);
    match first_where(meta, p) {
        Some(m) => {
            let i = choose|i: int| 0 <= i < meta.len() && meta[i] == m;
            assert(meta[i].key == key);
            assert(p(after[i]));
        },
        None => {
            assert forall|i: int| 0 <= i < meta.len() implies (#[trigger] meta[i]).key != key by {
                assert(!p(meta[i]));
            }
            assert(p(after[meta.len() as int]));
        },
    }
    let got = first_where(after, p)->Some_0;
    let n = choose|n: int| 0 <= n < after.len() && after[n] == got;
    if some_where(meta, p) {
        assert(after[n].key == meta[n].key);
        assert(p(meta[n]));
    } else if n < meta.len() {
        assert(!p(meta[n]));
    }
    if other != key {
        if some_where(meta, p) {
            crate::rows::lemma_updated_filter(
                meta,
                p,
                |m: MetaRowView| MetaRowView { value, ..m },
                q,
            );
            let left = meta.filter(q);
            crate::rows::lemma_selected(meta, q);
            assert(updated(left, p, |m: MetaRowView| MetaRowView { value, ..m }) =~= left) by {
                assert forall|i: int| 0 <= i < left.len() implies !p(#[trigger] left[i]) by {
                    assert(q(left[i]));
                }
            }
        } else {
            meta.lemma_filter_push(MetaRowView { key, value }, q);
        }
    }
}

} // verus!
