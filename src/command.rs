//! Command identifiers and topics: sub-command ids encode the invoking
//! command, so the chain of invoking commands is read back from an id alone.
use crate::text::free_of;
use crate::text::slice_of;
use crate::text::views;
use crate::topics::command_topic;
use crate::topics::command_topic_for;
use crate::topics::command_topic_parts;
use crate::topics::lemma_command_topic_parts;
use crate::topics::lemma_free_concat;
use crate::topics::topic_id_check;
use crate::topics::split_command_topic;
use vstd::prelude::*;

verus! {

pub open spec fn sub_prefix() -> Seq<char> {
    seq!['s', 'u', 'b', ':']
}

/// The id `sub:<operation>:<cmd_id>` of a sub-command of command `cmd_id` of
/// `operation`.
pub open spec fn sub_command_id_of(operation: Seq<char>, cmd_id: Seq<char>) -> Seq<char> {
    sub_prefix() + operation + seq![':'] + cmd_id
}

/// `k` is the first `:` of `id` after its `sub:` prefix.
pub open spec fn is_first_colon(id: Seq<char>, k: int) -> bool {
    4 <= k < id.len() && id[k] == ':' && free_of(id.subrange(4, k), ':')
}

/// The invoking operation and command id encoded in a sub-command id, if
/// `id` is one.
pub open spec fn split_sub_id(id: Seq<char>) -> Option<(Seq<char>, Seq<char>)> {
    if id.len() >= 4 && id.take(4) == sub_prefix() && exists|k: int| is_first_colon(id, k) {
        let k = choose|k: int| is_first_colon(id, k);
        Some((id.subrange(4, k), id.subrange(k + 1, id.len() as int)))
    } else {
        None
    }
}

/// The operations of the commands that led to command `id`, outermost first.
pub open spec fn invoking_operations(id: Seq<char>) -> Seq<Seq<char>>
    decreases id.len(),
{
    match split_sub_id(id) {
        Some((op, rest)) => if rest.len() < id.len() {
            invoking_operations(rest).push(op)
        } else {
            Seq::<Seq<char>>::empty()
        },
        None => Seq::<Seq<char>>::empty(),
    }
}

/// The topic of the command that invoked the command on topic `t`, if any.
pub open spec fn invoking_topic(t: Seq<char>) -> Option<Seq<char>> {
    match command_topic_parts(t) {
        Some((root, entity, _op, id)) => match split_sub_id(id) {
            Some((op, cmd_id)) => Some(command_topic(root, entity, op, cmd_id)),
            None => None,
        },
        None => None,
    }
}

proof fn lemma_first_colon_unique(id: Seq<char>, a: int, b: int)
    requires
        is_first_colon(id, a),
        is_first_colon(id, b),
    ensures
        a == b,
{
    if a < b {
        assert(id.subrange(4, b)[a - 4] == id[a]);
    } else if b < a {
        assert(id.subrange(4, a)[b - 4] == id[b]);
    }
}

/// What a split sub-command id is made of.
pub proof fn lemma_split_sub_id_parts(id: Seq<char>)
    ensures
        match split_sub_id(id) {
            Some((op, rest)) => rest.len() < id.len() && free_of(op, ':') && id
                == sub_command_id_of(op, rest),
            None => true,
        },
{
    if let Some((op, rest)) = split_sub_id(id) {
        let k = choose|k: int| is_first_colon(id, k);
        assert(id =~= sub_command_id_of(op, rest));
    }
}

/// A sub-command id splits back into the operation and id it was made of.
pub proof fn lemma_sub_command_id_splits(operation: Seq<char>, cmd_id: Seq<char>)
    requires
        free_of(operation, ':'),
    ensures
        split_sub_id(sub_command_id_of(operation, cmd_id)) == Some((operation, cmd_id)),
{
    let id = sub_command_id_of(operation, cmd_id);
    let k: int = 4 + operation.len() as int;
    assert(id.take(4) =~= sub_prefix());
    assert(id.subrange(4, k) =~= operation);
    assert(is_first_colon(id, k));
    let c = choose|c: int| is_first_colon(id, c);
    lemma_first_colon_unique(id, c, k);
    assert(id.subrange(k + 1, id.len() as int) =~= cmd_id);
}

/// Nesting sub-command ids three deep and reading the chain back gives the
/// operations in the order they were nested, outermost first.
pub proof fn lemma_sub_command_chain(
    o1: Seq<char>,
    o2: Seq<char>,
    o3: Seq<char>,
    id: Seq<char>,
)
    requires
        free_of(o1, ':'),
        free_of(o2, ':'),
        free_of(o3, ':'),
        split_sub_id(id) is None,
    ensures
        invoking_operations(
            sub_command_id_of(o3, sub_command_id_of(o2, sub_command_id_of(o1, id))),
        ) == seq![o1, o2, o3],
{
    let i1 = sub_command_id_of(o1, id);
    let i2 = sub_command_id_of(o2, i1);
    let i3 = sub_command_id_of(o3, i2);
    lemma_sub_command_id_splits(o1, id);
    lemma_sub_command_id_splits(o2, i1);
    lemma_sub_command_id_splits(o3, i2);
    assert(invoking_operations(id) == Seq::<Seq<char>>::empty());
    assert(invoking_operations(i1) =~= seq![o1]);
    assert(invoking_operations(i2) =~= seq![o1, o2]);
    assert(invoking_operations(i3) =~= seq![o1, o2, o3]);
}

/// Builds the id of a sub-command of command `cmd_id` of `operation`.
pub fn sub_command_id(operation: &str, cmd_id: &str) -> (r: String)
    ensures
        r@ == sub_command_id_of(operation@, cmd_id@),
{
    proof {
        reveal_strlit("sub:");
        reveal_strlit(":");
    }
    let mut r = "sub:".to_owned();
    r.append(operation);
    r.append(":");
    r.append(cmd_id);
    assert(r@ =~= sub_command_id_of(operation@, cmd_id@));
    r
}

pub open spec fn pair_view(p: Option<(String, String)>) -> Option<(Seq<char>, Seq<char>)> {
    match p {
        Some((a, b)) => Some((a@, b@)),
        None => None,
    }
}

/// The invoking operation and command id encoded in a sub-command id.
pub fn extract_invoking_command_id(sub_cmd_id: &str) -> (r: Option<(String, String)>)
    ensures
        pair_view(r) == split_sub_id(sub_cmd_id@),
{
    let ghost id = sub_cmd_id@;
    let n = sub_cmd_id.unicode_len();
    if n < 4 {
        return None;
    }
    if sub_cmd_id.get_char(0) != 's' || sub_cmd_id.get_char(1) != 'u' || sub_cmd_id.get_char(2)
        != 'b' || sub_cmd_id.get_char(3) != ':' {
        assert(id.take(4) != sub_prefix()) by {
            assert(id.take(4)[0] == id[0]);
            assert(id.take(4)[1] == id[1]);
            assert(id.take(4)[2] == id[2]);
            assert(id.take(4)[3] == id[3]);
        }
        return None;
    }
    assert(id.take(4) =~= sub_prefix());
    let mut k: usize = 4;
    while k < n
        invariant
            n == id.len(),
            id == sub_cmd_id@,
            id.take(4) == sub_prefix(),
            4 <= k <= n,
            free_of(id.subrange(4, k as int), ':'),
        decreases n - k,
    {
        if sub_cmd_id.get_char(k) == ':' {
            assert(is_first_colon(id, k as int));
            proof {
                let c = choose|c: int| is_first_colon(id, c);
                lemma_first_colon_unique(id, c, k as int);
            }
            let op = slice_of(sub_cmd_id, 4, k);
            let rest = slice_of(sub_cmd_id, k + 1, n);
            return Some((op, rest));
        }
        assert(id.subrange(4, k + 1) =~= id.subrange(4, k as int).push(id[k as int]));
        k = k + 1;
    }
    assert forall|c: int| !is_first_colon(id, c) by {
        if is_first_colon(id, c) {
            assert(id.subrange(4, n as int)[c - 4] == id[c]);
        }
    }
    None
}

/// The operations of the commands that led to command `cmd_id`, outermost
/// first: `sub:firmware_update:sub:device_profile:robot-123` gives
/// `["device_profile", "firmware_update"]`.
pub fn extract_invoking_operation_names(cmd_id: &str) -> (r: Vec<String>)
    ensures
        views(r@) == invoking_operations(cmd_id@),
    decreases cmd_id@.len(),
{
    proof {
        lemma_split_sub_id_parts(cmd_id@);
    }
    match extract_invoking_command_id(cmd_id) {
        Some((op, rest)) => {
            let mut r = extract_invoking_operation_names(rest.as_str());
            let ghost before = r@;
            r.push(op);
            assert(views(r@) =~= views(before).push(op@));
            r
        },
        None => {
            let r: Vec<String> = Vec::new();
            assert(views(r@) =~= Seq::<Seq<char>>::empty());
            r
        },
    }
}

pub open spec fn opt_view(s: Option<String>) -> Option<Seq<char>> {
    match s {
        Some(s) => Some(s@),
        None => None,
    }
}

/// The topic of the command that invoked the command on `sub_command_topic`.
pub fn infer_invoking_command_topic(sub_command_topic: &str) -> (r: Option<String>)
    ensures
        opt_view(r) == invoking_topic(sub_command_topic@),
{
    match split_command_topic(sub_command_topic) {
        Some(parts) => match extract_invoking_command_id(parts.cmd_id.as_str()) {
            Some((op, id)) => Some(
                command_topic_for(parts.root.as_str(), parts.entity.as_str(), op.as_str(), id.as_str()),
            ),
            None => None,
        },
        None => None,
    }
}

/// The topic of a sub-command leads back to the topic of the command that
/// invoked it, when the topic root, the operations and the command id hold
/// no `/` and the invoking operation no `:`.
pub proof fn lemma_sub_command_topic_invoking(
    root: Seq<char>,
    entity: Seq<char>,
    operation: Seq<char>,
    cmd_id: Seq<char>,
    sub_operation: Seq<char>,
)
    requires
        free_of(root, '/'),
        free_of(operation, '/'),
        free_of(cmd_id, '/'),
        free_of(sub_operation, '/'),
        free_of(operation, ':'),
        topic_id_check(entity) is None,
    ensures
        invoking_topic(
            command_topic(root, entity, sub_operation, sub_command_id_of(operation, cmd_id)),
        ) == Some(command_topic(root, entity, operation, cmd_id)),
{
    let sub_id = sub_command_id_of(operation, cmd_id);
    assert(free_of(sub_prefix(), '/'));
    assert(free_of(seq![':'], '/'));
    lemma_free_concat(sub_prefix(), operation, '/');
    lemma_free_concat(sub_prefix() + operation, seq![':'], '/');
    lemma_free_concat(sub_prefix() + operation + seq![':'], cmd_id, '/');
    lemma_command_topic_parts(root, entity, sub_operation, sub_id);
    lemma_sub_command_id_splits(operation, cmd_id);
}

} // verus!
