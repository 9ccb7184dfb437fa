//! The mutating operations of the todo list: adding, removing, checking,
//! unchecking, sorting and editing items, all addressed by 1-based display
//! positions.

use vstd::prelude::*;
use crate::item::{Todo, TodoError};
use crate::text::{dec_val, is_position_number, parse_position, str_eq};

verus! {

/// The incomplete items of `s`, in their original relative order.
pub open spec fn incomplete_of(s: Seq<Todo>) -> Seq<Todo>
    decreases s.len(),
{
    if s.len() == 0 {
        Seq::empty()
    } else if s.last().complete {
        incomplete_of(s.drop_last())
    } else {
        incomplete_of(s.drop_last()).push(s.last())
    }
}

/// The complete items of `s`, in their original relative order.
pub open spec fn complete_of(s: Seq<Todo>) -> Seq<Todo>
    decreases s.len(),
{
    if s.len() == 0 {
        Seq::empty()
    } else if s.last().complete {
        complete_of(s.drop_last()).push(s.last())
    } else {
        complete_of(s.drop_last())
    }
}

/// Every item of `s` with its completion flag set to `v`.
pub open spec fn set_all(s: Seq<Todo>, v: bool) -> Seq<Todo> {
    s.map_values(|t: Todo| Todo { label: t.label, complete: v })
}

/// The items of `s` with the flag of every item whose 1-based position
/// occurs in `ps` set to `v`; positions outside `[1, s.len()]` select
/// nothing.
pub open spec fn set_at_positions(s: Seq<Todo>, ps: Seq<u64>, v: bool) -> Seq<Todo> {
    Seq::new(
        s.len(),
        |i: int|
            if ps.contains((i + 1) as u64) {
                Todo { label: s[i].label, complete: v }
            } else {
                s[i]
            },
    )
}

/// The items of `s` whose 1-based position does not occur in `ps`, in
/// their original relative order. Repeated and out-of-range positions
/// have no further effect.
pub open spec fn remove_at_positions(s: Seq<Todo>, ps: Seq<u64>) -> Seq<Todo>
    decreases s.len(),
{
    if s.len() == 0 {
        Seq::empty()
    } else if ps.contains(s.len() as u64) {
        remove_at_positions(s.drop_last(), ps)
    } else {
        remove_at_positions(s.drop_last(), ps).push(s.last())
    }
}

/// The position values denoted by a parameter list of digit runs.
pub open spec fn positions_of(params: Seq<String>) -> Seq<u64> {
    params.map_values(|p: String| dec_val(p@) as u64)
}

/// Whether every parameter is a parseable position number.
pub open spec fn all_position_numbers(params: Seq<String>) -> bool {
    forall|i: int| 0 <= i < params.len() ==> is_position_number(params[i]@)
}

/// Whether `s` is one of the keywords `remove` recognizes in place of a
/// position list.
pub open spec fn is_remove_keyword(s: Seq<char>) -> bool {
    s == "all"@ || s == "checked"@ || s == "completed"@
}

/// Only the position values of `ps`, as a set, decide what
/// `remove_at_positions` removes: repeating a position changes nothing.
pub proof fn lemma_remove_positions_set_equivalent(s: Seq<Todo>, ps1: Seq<u64>, ps2: Seq<u64>)
    requires
        forall|p: u64| #[trigger] ps1.contains(p) <==> ps2.contains(p),
    ensures
        remove_at_positions(s, ps1) == remove_at_positions(s, ps2),
    decreases s.len(),
{
    if s.len() > 0 {
        lemma_remove_positions_set_equivalent(s.drop_last(), ps1, ps2);
    }
}

/// Parse every parameter as a 1-based position, or report the first one
/// that is not a parseable number.
pub fn parse_positions(params: &Vec<String>) -> (r: Result<Vec<u64>, TodoError>)
    ensures
        r is Ok <==> all_position_numbers(params@),
        r matches Ok(ps) ==> ps@ == positions_of(params@),
        r matches Err(e) ==> e matches TodoError::InvalidPosition { index }
            && (index as int) < params@.len() && !is_position_number(params@[index as int]@),
{
    let mut out: Vec<u64> = Vec::new();
    let mut i: usize = 0;
    while i < params.len()
        invariant
            i <= params@.len(),
            out@.len() == i,
            forall|k: int| 0 <= k < i ==> is_position_number(#[trigger] params@[k]@)
                && out@[k] == dec_val(params@[k]@) as u64,
        decreases params@.len() - i,
    {
        match parse_position(params[i].as_str()) {
            Some(n) => {
                out.push(n);
            },
            None => {
                return Err(TodoError::InvalidPosition { index: i });
            },
        }
        i += 1;
    }
    proof {
        assert(out@ =~= positions_of(params@));
    }
    Ok(out)
}

/// Parse the selectors of a command that takes only positions: at least
/// one selector is required, and every one must be a parseable position.
pub fn selector_positions(params: &Vec<String>) -> (r: Result<Vec<u64>, TodoError>)
    ensures
        r is Ok <==> params@.len() > 0 && all_position_numbers(params@),
        r matches Ok(ps) ==> ps@ == positions_of(params@),
        r matches Err(e) ==> (params@.len() == 0 && e is MissingSelectors) || (params@.len() > 0
            && (e matches TodoError::InvalidPosition { index }
                && (index as int) < params@.len()
                && !is_position_number(params@[index as int]@))),
{
    if params.len() == 0 {
        return Err(TodoError::MissingSelectors);
    }
    parse_positions(params)
}

/// Whether `x` occurs in `ps`.
fn contains_pos(ps: &Vec<u64>, x: u64) -> (r: bool)
    ensures
        r == ps@.contains(x),
{
    let mut i: usize = 0;
    while i < ps.len()
        invariant
            i <= ps@.len(),
            forall|k: int| 0 <= k < i ==> ps@[k] != x,
        decreases ps@.len() - i,
    {
        if ps[i] == x {
            return true;
        }
        i += 1;
    }
    false
}

/// Append one incomplete item per given label, in the order given.
pub fn add_items(data: &mut Vec<Todo>, params: Vec<String>)
    ensures
        final(data)@ == old(data)@
            + params@.map_values(|l: String| Todo { label: l, complete: false }),
{
    let ghost mapped = params@.map_values(|l: String| Todo { label: l, complete: false });
    let mut i: usize = 0;
    while i < params.len()
        invariant
            i <= params@.len(),
            mapped == params@.map_values(|l: String| Todo { label: l, complete: false }),
            data@ == old(data)@ + mapped.take(i as int),
        decreases params@.len() - i,
    {
        let label = params[i].clone();
        data.push(Todo { label, complete: false });
        proof {
            assert(mapped.take(i + 1) =~= mapped.take(i as int).push(mapped[i as int]));
        }
        i += 1;
    }
    proof {
        assert(mapped.take(params@.len() as int) =~= mapped);
    }
}

/// Remove items: the keyword `all` clears the list, `checked` or
/// `completed` keeps exactly the incomplete items in order, and otherwise
/// every parameter is a 1-based position, out-of-range and repeated
/// positions being ignored.
pub fn remove_items(data: &mut Vec<Todo>, params: &Vec<String>) -> (r: Result<(), TodoError>)
    ensures
        r is Ok <==> params@.len() > 0
            && (is_remove_keyword(params@[0]@) || all_position_numbers(params@)),
        r is Ok && params@[0]@ == "all"@ ==> final(data)@ == Seq::<Todo>::empty(),
        r is Ok && !(params@[0]@ == "all"@) && is_remove_keyword(params@[0]@)
            ==> final(data)@ == incomplete_of(old(data)@),
        r is Ok && !is_remove_keyword(params@[0]@)
            ==> final(data)@ == remove_at_positions(old(data)@, positions_of(params@)),
        r is Err ==> final(data)@ == old(data)@,
        r matches Err(e) ==> (params@.len() == 0 && e is MissingSelectors)
            || (params@.len() > 0 && !is_remove_keyword(params@[0]@)
                && (e matches TodoError::InvalidPosition { index }
                    && (index as int) < params@.len()
                    && !is_position_number(params@[index as int]@))),
{
    if params.len() == 0 {
        return Err(TodoError::MissingSelectors);
    }
    if str_eq(params[0].as_str(), "all") {
        data.clear();
        return Ok(());
    }
    if str_eq(params[0].as_str(), "checked") || str_eq(params[0].as_str(), "completed") {
        retain_incomplete(data);
        return Ok(());
    }
    let positions = match parse_positions(params) {
        Ok(ps) => ps,
        Err(e) => {
            return Err(e);
        },
    };
    let ghost orig = data@;
    let mut kept: Vec<Todo> = Vec::new();
    let mut i: usize = 0;
    while i < data.len()
        invariant
            i <= data@.len(),
            data@ == orig,
            positions@ == positions_of(params@),
            kept@ == remove_at_positions(orig.take(i as int), positions@),
        decreases data@.len() - i,
    {
        proof {
            assert(orig.take(i + 1).drop_last() =~= orig.take(i as int));
        }
        if !contains_pos(&positions, (i as u64) + 1) {
            let item = Todo { label: data[i].label.clone(), complete: data[i].complete };
            assert(item == orig[i as int]);
            kept.push(item);
        }
        i += 1;
    }
    proof {
        assert(orig.take(orig.len() as int) =~= orig);
    }
    *data = kept;
    Ok(())
}

/// Keep exactly the incomplete items, in their original relative order.
fn retain_incomplete(data: &mut Vec<Todo>)
    ensures
        final(data)@ == incomplete_of(old(data)@),
{
    let ghost orig = data@;
    let mut kept: Vec<Todo> = Vec::new();
    let mut i: usize = 0;
    while i < data.len()
        invariant
            i <= data@.len(),
            data@ == orig,
            kept@ == incomplete_of(orig.take(i as int)),
        decreases data@.len() - i,
    {
        proof {
            assert(orig.take(i + 1).drop_last() =~= orig.take(i as int));
        }
        if !data[i].complete {
            let item = Todo { label: data[i].label.clone(), complete: data[i].complete };
            assert(item == orig[i as int]);
            kept.push(item);
        }
        i += 1;
    }
    proof {
        assert(orig.take(orig.len() as int) =~= orig);
    }
    *data = kept;
}

/// Set the completion flag of the selected items to `v`: the keyword
/// `all` selects every item, and otherwise every parameter is a 1-based
/// position, out-of-range positions being ignored.
fn set_complete(data: &mut Vec<Todo>, params: &Vec<String>, v: bool) -> (r: Result<(), TodoError>)
    ensures
        r is Ok <==> params@.len() > 0
            && (params@[0]@ == "all"@ || all_position_numbers(params@)),
        r is Ok && params@[0]@ == "all"@ ==> final(data)@ == set_all(old(data)@, v),
        r is Ok && !(params@[0]@ == "all"@)
            ==> final(data)@ == set_at_positions(old(data)@, positions_of(params@), v),
        r is Err ==> final(data)@ == old(data)@,
        r matches Err(e) ==> (params@.len() == 0 && e is MissingSelectors)
            || (params@.len() > 0 && !(params@[0]@ == "all"@)
                && (e matches TodoError::InvalidPosition { index }
                    && (index as int) < params@.len()
                    && !is_position_number(params@[index as int]@))),
{
    if params.len() == 0 {
        return Err(TodoError::MissingSelectors);
    }
    let ghost orig = data@;
    if str_eq(params[0].as_str(), "all") {
        let mut i: usize = 0;
        while i < data.len()
            invariant
                i <= data@.len(),
                data@.len() == orig.len(),
                forall|k: int| 0 <= k < i ==> data@[k] == set_all(orig, v)[k],
                forall|k: int| i <= k < orig.len() ==> data@[k] == orig[k],
            decreases data@.len() - i,
        {
            let label = data[i].label.clone();
            data.set(i, Todo { label, complete: v });
            i += 1;
        }
        proof {
            assert(data@ =~= set_all(orig, v));
        }
        return Ok(());
    }
    let positions = match parse_positions(params) {
        Ok(ps) => ps,
        Err(e) => {
            return Err(e);
        },
    };
    let ghost target = set_at_positions(orig, positions_of(params@), v);
    let mut i: usize = 0;
    while i < data.len()
        invariant
            i <= data@.len(),
            data@.len() == orig.len(),
            positions@ == positions_of(params@),
            target == set_at_positions(orig, positions@, v),
            forall|k: int| 0 <= k < i ==> data@[k] == target[k],
            forall|k: int| i <= k < orig.len() ==> data@[k] == orig[k],
        decreases data@.len() - i,
    {
        if contains_pos(&positions, (i as u64) + 1) {
            let label = data[i].label.clone();
            data.set(i, Todo { label, complete: v });
        }
        i += 1;
    }
    proof {
        assert(data@ =~= target);
    }
    Ok(())
}

/// Mark the selected items complete; `all` selects every item,
/// out-of-range positions are silently ignored.
pub fn check_items(data: &mut Vec<Todo>, params: &Vec<String>) -> (r: Result<(), TodoError>)
    ensures
        r is Ok <==> params@.len() > 0
            && (params@[0]@ == "all"@ || all_position_numbers(params@)),
        r is Ok && params@[0]@ == "all"@ ==> final(data)@ == set_all(old(data)@, true),
        r is Ok && !(params@[0]@ == "all"@)
            ==> final(data)@ == set_at_positions(old(data)@, positions_of(params@), true),
        r is Err ==> final(data)@ == old(data)@,
        r matches Err(e) ==> (params@.len() == 0 && e is MissingSelectors)
            || (params@.len() > 0 && !(params@[0]@ == "all"@)
                && (e matches TodoError::InvalidPosition { index }
                    && (index as int) < params@.len()
                    && !is_position_number(params@[index as int]@))),
{
    set_complete(data, params, true)
}

/// Mark the selected items incomplete; `all` selects every item,
/// out-of-range positions are silently ignored.
pub fn uncheck_items(data: &mut Vec<Todo>, params: &Vec<String>) -> (r: Result<(), TodoError>)
    ensures
        r is Ok <==> params@.len() > 0
            && (params@[0]@ == "all"@ || all_position_numbers(params@)),
        r is Ok && params@[0]@ == "all"@ ==> final(data)@ == set_all(old(data)@, false),
        r is Ok && !(params@[0]@ == "all"@)
            ==> final(data)@ == set_at_positions(old(data)@, positions_of(params@), false),
        r is Err ==> final(data)@ == old(data)@,
        r matches Err(e) ==> (params@.len() == 0 && e is MissingSelectors)
            || (params@.len() > 0 && !(params@[0]@ == "all"@)
                && (e matches TodoError::InvalidPosition { index }
                    && (index as int) < params@.len()
                    && !is_position_number(params@[index as int]@))),
{
    set_complete(data, params, false)
}

/// Stable sort by completion flag: every incomplete item before every
/// complete one, ties keeping their prior relative order.
pub fn sort_items(data: &mut Vec<Todo>)
    ensures
        final(data)@ == incomplete_of(old(data)@) + complete_of(old(data)@),
{
    let ghost orig = data@;
    let mut pending: Vec<Todo> = Vec::new();
    let mut done: Vec<Todo> = Vec::new();
    let mut i: usize = 0;
    while i < data.len()
        invariant
            i <= data@.len(),
            data@ == orig,
            pending@ == incomplete_of(orig.take(i as int)),
            done@ == complete_of(orig.take(i as int)),
        decreases data@.len() - i,
    {
        proof {
            assert(orig.take(i + 1).drop_last() =~= orig.take(i as int));
        }
        let item = Todo { label: data[i].label.clone(), complete: data[i].complete };
        assert(item == orig[i as int]);
        if item.complete {
            done.push(item);
        } else {
            pending.push(item);
        }
        i += 1;
    }
    proof {
        assert(orig.take(orig.len() as int) =~= orig);
    }
    pending.append(&mut done);
    *data = pending;
}

/// Replace the label of the item at the 1-based position `pos`; a
/// position outside `[1, len]` changes nothing.
pub fn edit_item(data: &mut Vec<Todo>, pos: u64, label: String)
    ensures
        1 <= pos <= old(data)@.len() ==> final(data)@ == old(data)@.update(
            pos - 1,
            Todo { label: label, complete: old(data)@[pos - 1].complete },
        ),
        !(1 <= pos <= old(data)@.len()) ==> final(data)@ == old(data)@,
{
    if 1 <= pos && pos <= data.len() as u64 {
        let idx = (pos - 1) as usize;
        let complete = data[idx].complete;
        data.set(idx, Todo { label, complete });
    }
}

} // verus!
