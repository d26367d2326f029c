//! What a document holds, in numbers.

use crate::document::{verb_order, verbs, Document, PathItemView};
use crate::generator::operation_count;
use vstd::prelude::*;

verus! {

/// How many path items, operations, parameters and component schemas a
/// document holds. A count that no `usize` can hold stands at `usize::MAX`.
#[derive(Debug, Clone, Copy, PartialEq, Eq)]
pub struct Statistics {
    pub path_items: usize,
    pub operations: usize,
    pub parameters: usize,
    pub schemas: usize,
}

/// The number of parameters of the operations that a path item binds to the
/// first `count` verbs of the order.
pub open spec fn item_parameters(item: PathItemView, count: int) -> nat
    decreases count,
{
    if count <= 0 {
        0
    } else {
        item_parameters(item, count - 1) + match item.operation(verb_order()[count - 1]) {
            Some(operation) => operation.parameters.len(),
            None => 0,
        }
    }
}

/// The number of parameters of the operations of the entries of a path table.
pub open spec fn total_parameters(paths: Seq<(Seq<char>, PathItemView)>) -> nat
    decreases paths.len(),
{
    if paths.len() == 0 {
        0
    } else {
        total_parameters(paths.drop_last()) + item_parameters(paths.last().1, 8)
    }
}

/// A count as a `usize` holds it.
pub open spec fn capped(count: int) -> usize {
    if 0 <= count <= usize::MAX {
        count as usize
    } else {
        usize::MAX
    }
}

/// The sum of a capped count and a number, capped.
fn add_capped(count: usize, more: usize, Ghost(exact): Ghost<int>) -> (sum: usize)
    requires
        0 <= exact,
        count == capped(exact),
    ensures
        sum == capped(exact + more),
{
    match count.checked_add(more) {
        Some(sum) => sum,
        None => usize::MAX,
    }
}

/// Counts what a document holds.
pub fn document_statistics(document: &Document) -> (statistics: Statistics)
    ensures
        statistics.path_items == document@.paths.len(),
        statistics.operations == capped(operation_count(document@.paths) as int),
        statistics.parameters == capped(total_parameters(document@.paths) as int),
        statistics.schemas == document@.components.len(),
{
    let order = verbs();
    let ghost paths = document@.paths;
    let mut operations: usize = 0;
    let mut parameters: usize = 0;
    let mut i: usize = 0;
    assert(paths.take(0) =~= Seq::empty());
    while i < document.paths.len()
        invariant
            i <= document.paths.len(),
            paths == document@.paths,
            order@ == verb_order(),
            operations == capped(operation_count(paths.take(i as int)) as int),
            parameters == capped(total_parameters(paths.take(i as int)) as int),
        decreases document.paths.len() - i,
    {
        let entry = &document.paths[i];
        let ghost item = entry.item@;
        let ghost operations_before = operation_count(paths.take(i as int)) as int;
        let ghost parameters_before = total_parameters(paths.take(i as int)) as int;
        proof {
            assert(paths.take(i + 1).drop_last() =~= paths.take(i as int));
            assert(paths.take(i + 1).last() == entry@);
        }
        let mut k: usize = 0;
        while k < order.len()
            invariant
                k <= order.len(),
                order@ == verb_order(),
                item == entry.item@,
                0 <= operations_before,
                0 <= parameters_before,
                operations == capped(operations_before + item.operations_among(k as int).len()),
                parameters == capped(parameters_before + item_parameters(item, k as int)),
            decreases order.len() - k,
        {
            match entry.item.operation(order[k]) {
                Some(operation) => {
                    operations = add_capped(
                        operations,
                        1,
                        Ghost(operations_before + item.operations_among(k as int).len()),
                    );
                    parameters = add_capped(
                        parameters,
                        operation.parameters.len(),
                        Ghost(parameters_before + item_parameters(item, k as int)),
                    );
                },
                None => {},
            }
            k += 1;
        }
        i += 1;
    }
    assert(paths.take(i as int) =~= paths);
    Statistics {
        path_items: document.paths.len(),
        operations,
        parameters,
        schemas: document.components.len(),
    }
}

} // verus!
