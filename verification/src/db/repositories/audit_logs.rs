use vstd::prelude::*;

use crate::db::{constraint, has_room, next_id, room, valid_opt_id, AuditRecord, Database, DbError, Table};
use crate::db::repositories::stock_movements::{opt_str, opt_text};

verus! {

fn opt_owned(s: Option<&str>) -> (r: Option<String>)
    ensures
        opt_text(r) == opt_str(s),
{
    match s {
        Some(v) => Some(v.to_owned()),
        None => None,
    }
}

/// Append-only: there is deliberately no way to change or remove an entry.
/// `user_id` must name a user; no device exists that `device_id` could
/// name.
pub fn insert(
    db: &mut Database,
    user_id: Option<i64>,
    device_id: Option<i64>,
    action: &str,
    entity_type: &str,
    entity_id: &str,
    before: Option<&str>,
    after: Option<&str>,
    ip_address: Option<&str>,
) -> (r: Result<i64, DbError>)
    requires
        old(db).wf(),
    ensures
        final(db).wf(),
        !valid_opt_id(user_id, old(db).users@.len()) || device_id is Some ==> {
            &&& r matches Err(DbError::Constraint(m))
            &&& m@ == "FOREIGN KEY constraint failed"@
        },
        valid_opt_id(user_id, old(db).users@.len()) && device_id is None && !room(old(db).audit_logs@.len())
            ==> r matches Err(DbError::Full),
        valid_opt_id(user_id, old(db).users@.len()) && device_id is None && room(old(db).audit_logs@.len())
            ==> r is Ok,
        r is Err ==> old(db).same_tables(final(db)),
        r matches Ok(id) ==> {
            let a = final(db).audit_logs@.last();
            &&& valid_opt_id(user_id, old(db).users@.len())
            &&& device_id is None
            &&& room(old(db).audit_logs@.len())
            &&& id == old(db).audit_logs@.len() + 1
            &&& final(db).audit_logs@.drop_last() == old(db).audit_logs@
            &&& final(db).audit_logs@.len() == id
            &&& a.id == id
            &&& a.user_id == user_id
            &&& a.device_id == device_id
            &&& a.action@ == action@
            &&& a.entity_type@ == entity_type@
            &&& a.entity_id@ == entity_id@
            &&& opt_text(a.before) == opt_str(before)
            &&& opt_text(a.after) == opt_str(after)
            &&& opt_text(a.ip_address) == opt_str(ip_address)
            &&& old(db).agrees_outside(final(db), set![Table::AuditLogs])
        },
{
    let valid_user = match user_id {
        Some(u) => 1 <= u && u as u64 <= db.users.len() as u64,
        None => true,
    };
    if !valid_user || device_id.is_some() {
        return Err(constraint("FOREIGN KEY constraint failed"));
    }
    if !has_room(db.audit_logs.len()) {
        return Err(DbError::Full);
    }
    let id = next_id(db.audit_logs.len());
    db.audit_logs.push(
        AuditRecord {
            id,
            user_id,
            device_id,
            action: action.to_owned(),
            entity_type: entity_type.to_owned(),
            entity_id: entity_id.to_owned(),
            before: opt_owned(before),
            after: opt_owned(after),
            ip_address: opt_owned(ip_address),
        },
    );
    assert(db.audit_logs@.drop_last() =~= old(db).audit_logs@);
    Ok(id)
}

} // verus!
