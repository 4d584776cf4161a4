//! Writes the inputs of the jobs to the queue, one record on each line.

use crate::command::texts;
use crate::disk_buffer::DiskBufferWriter;
use crate::permutations::{
    all_inhabited, combination, combinations, lemma_combination_len, list_texts, permutator_lists,
    permutator_new,
    permutator_next, permutator_next_with_buffer, permutator_position, str_texts,
};
use vstd::prelude::*;
use vstd::string::StringSliceAdditionalSpecFns;
use vstd::utf8::encode_utf8;

verus! {

/// The number of inputs that go on one line: `max_args`, or one where it is less than two.
pub open spec fn width(max_args: usize) -> nat {
    if max_args < 2 {
        1
    } else {
        max_args as nat
    }
}

/// The number of lines that `total` inputs take.
pub open spec fn records(total: nat, max_args: usize) -> nat {
    if max_args >= 2 {
        ((total + max_args - 1) / (max_args as int)) as nat
    } else {
        total
    }
}

/// Each text of `list` as bytes.
pub open spec fn encoded(list: Seq<Seq<char>>) -> Seq<Seq<u8>> {
    Seq::new(list.len(), |i: int| encode_utf8(list[i]))
}

/// `items` one after another, a space between each two.
pub open spec fn joined(items: Seq<Seq<u8>>) -> Seq<u8>
    decreases items.len(),
{
    if items.len() == 0 {
        Seq::empty()
    } else if items.len() == 1 {
        items[0]
    } else {
        joined(items.drop_last()) + seq![0x20u8] + items.last()
    }
}

/// What stands before input number `n` on its line: a space, unless the
/// input starts the line.
pub open spec fn separator(m: nat, n: nat) -> Seq<u8> {
    if n % m != 0 {
        seq![0x20u8]
    } else {
        Seq::empty()
    }
}

/// What stands after input number `n`: the end of the line, where the
/// input fills it.
pub open spec fn terminator(m: nat, n: nat) -> Seq<u8> {
    if n % m == m - 1 {
        seq![0x0au8]
    } else {
        Seq::empty()
    }
}

/// The first `n` of `items`, `m` to a line. The last line is left open where
/// it is not full.
pub open spec fn open_lines(items: Seq<Seq<u8>>, m: nat, n: nat) -> Seq<u8>
    decreases n,
{
    if n == 0 {
        Seq::empty()
    } else {
        open_lines(items, m, (n - 1) as nat) + separator(m, (n - 1) as nat) + items[n - 1]
            + terminator(m, (n - 1) as nat)
    }
}

/// The queue that holds `items`: as many to a line as `max_args` says, with
/// spaces between them, and every line ended, the last one too.
pub open spec fn queue(items: Seq<Seq<u8>>, max_args: usize) -> Seq<u8> {
    let m = width(max_args);
    if items.len() % m != 0 {
        open_lines(items, m, items.len()) + seq![0x0au8]
    } else {
        open_lines(items, m, items.len())
    }
}

/// What the strings of each list of `lists` hold.
pub open spec fn lists_of_texts(lists: Seq<Vec<String>>) -> Seq<Seq<Seq<char>>> {
    Seq::new(lists.len(), |i: int| texts(lists[i]@))
}

/// Every combination of one input from each of `lists`, each joined by
/// spaces, in the order of `combination`.
pub open spec fn combined(lists: Seq<Seq<Seq<char>>>) -> Seq<Seq<u8>> {
    Seq::new(combinations(lists), |k: int| joined(encoded(combination(lists, k))))
}

/// The inputs of the jobs: with two lists or more every combination of
/// their items, else the items of `current_inputs`.
pub open spec fn queue_items(lists: Seq<Vec<String>>, current_inputs: Seq<String>) -> Seq<Seq<u8>> {
    if lists.len() > 1 {
        combined(lists_of_texts(lists))
    } else {
        encoded(texts(current_inputs))
    }
}

proof fn lemma_combinations_positive<T>(lists: Seq<Seq<T>>)
    requires
        all_inhabited(lists),
    ensures
        combinations(lists) >= 1,
    decreases lists.len(),
{
    if lists.len() > 0 {
        lemma_combinations_positive(lists.drop_last());
        assert(lists.last() == lists[lists.len() - 1]);
        assert(combinations(lists.drop_last()) * lists.last().len() >= 1) by (nonlinear_arith)
            requires
                combinations(lists.drop_last()) >= 1,
                lists.last().len() >= 1,
        ;
    }
}

proof fn lemma_combinations_none<T>(lists: Seq<Seq<T>>)
    requires
        !all_inhabited(lists),
    ensures
        combinations(lists) == 0,
    decreases lists.len(),
{
    if lists.len() > 0 {
        if lists.last().len() > 0 {
            let shorter = lists.drop_last();
            assert(!all_inhabited(shorter)) by {
                if all_inhabited(shorter) {
                    assert forall|i: int| 0 <= i < lists.len() implies (#[trigger] lists[i]).len()
                        > 0 by {
                        if i < shorter.len() {
                            assert(shorter[i] == lists[i]);
                        }
                    }
                }
            }
            lemma_combinations_none(shorter);
        }
        assert(combinations(lists.drop_last()) * lists.last().len() == 0) by (nonlinear_arith)
            requires
                combinations(lists.drop_last()) == 0 || lists.last().len() == 0,
        ;
    }
}

/// How the lines and the place on the line move on with one more input.
proof fn lemma_next_input(m: int, n: int)
    requires
        m >= 1,
        n >= 0,
    ensures
        (n + 1) % m == if n % m + 1 == m {
            0
        } else {
            n % m + 1
        },
        (n + m) / m == (n + m - 1) / m + if n % m == 0 {
            1int
        } else {
            0int
        },
        0 <= (n + m - 1) / m <= n,
        0 <= n % m < m,
{
    let q = n / m;
    let r = n % m;
    vstd::arithmetic::div_mod::lemma_fundamental_div_mod(n, m);
    vstd::arithmetic::div_mod::lemma_mod_bound(n, m);
    assert(q >= 0 && q <= n) by (nonlinear_arith)
        requires
            n == m * q + r,
            m >= 1,
            0 <= r < m,
            n >= 0,
    ;
    assert(m * (q + 1) == m * q + m) by (nonlinear_arith);
    if r + 1 == m {
        vstd::arithmetic::div_mod::lemma_fundamental_div_mod_converse(n + 1, m, q + 1, 0);
    } else {
        vstd::arithmetic::div_mod::lemma_fundamental_div_mod_converse(n + 1, m, q, r + 1);
    }
    if r == 0 {
        vstd::arithmetic::div_mod::lemma_fundamental_div_mod_converse(n + m, m, q + 1, 0);
        if m == 1 {
            vstd::arithmetic::div_mod::lemma_fundamental_div_mod_converse(n + m - 1, m, q, 0);
        } else {
            vstd::arithmetic::div_mod::lemma_fundamental_div_mod_converse(n + m - 1, m, q, m - 1);
        }
    } else {
        vstd::arithmetic::div_mod::lemma_fundamental_div_mod_converse(n + m, m, q + 1, r);
        vstd::arithmetic::div_mod::lemma_fundamental_div_mod_converse(n + m - 1, m, q + 1, r - 1);
        assert(q + 1 <= n) by (nonlinear_arith)
            requires
                n == m * q + r,
                m >= 1,
                r >= 1,
                q >= 0,
        ;
    }
}

/// Where the writing of the queue stands: how many inputs go on a line,
/// how many the open line holds, and how many lines were begun.
struct Batch {
    width: usize,
    fill: usize,
    count: usize,
}

impl Batch {
    /// Whether this is the state after `n` inputs.
    spec fn tracks(self, max_args: usize, n: nat) -> bool {
        &&& self.width == width(max_args)
        &&& self.fill == n % width(max_args)
        &&& self.count == (n + width(max_args) - 1) / (width(max_args) as int)
    }

    fn new(max_args: usize) -> (batch: Batch)
        ensures
            batch.tracks(max_args, 0),
    {
        proof {
            lemma_next_input(width(max_args) as int, 0);
        }
        Batch {
            width: if max_args < 2 {
                1
            } else {
                max_args
            },
            fill: 0,
            count: 0,
        }
    }
}

/// Whether two writers write to the same file through buffers of one size.
pub open spec fn same_file(before: DiskBufferWriter, after: DiskBufferWriter) -> bool {
    after.path_text() == before.path_text() && after.limit() == before.limit()
}

fn write_joined(disk_buffer: &mut DiskBufferWriter, parts: &[&str])
    ensures
        same_file(*old(disk_buffer), *final(disk_buffer)),
        final(disk_buffer).written() == old(disk_buffer).written() + joined(
            encoded(str_texts(parts@)),
        ),
{
    let ghost items = encoded(str_texts(parts@));
    let mut i: usize = 0;
    while i < parts.len()
        invariant
            i <= parts@.len(),
            items == encoded(str_texts(parts@)),
            same_file(*old(disk_buffer), *disk_buffer),
            disk_buffer.written() == old(disk_buffer).written() + joined(
                items.subrange(0, i as int),
            ),
        decreases parts@.len() - i,
    {
        let ghost before = disk_buffer.written();
        if i > 0 {
            disk_buffer.write_byte(0x20u8);
        }
        disk_buffer.write(parts[i].as_bytes());
        proof {
            let upto = items.subrange(0, i + 1);
            assert(upto.drop_last() =~= items.subrange(0, i as int));
            assert(upto.last() == encode_utf8(parts@[i as int]@));
            if i == 0 {
                assert(joined(items.subrange(0, 0)) =~= Seq::<u8>::empty());
                assert(disk_buffer.written() =~= old(disk_buffer).written() + joined(upto));
            } else {
                assert(disk_buffer.written() =~= old(disk_buffer).written() + joined(upto));
            }
        }
        i += 1;
    }
    assert(items.subrange(0, i as int) =~= items);
    assert(old(disk_buffer).written() + Seq::<u8>::empty() =~= old(disk_buffer).written());
}

fn write_item(
    batch: &mut Batch,
    disk_buffer: &mut DiskBufferWriter,
    parts: &[&str],
    Ghost(max_args): Ghost<usize>,
    Ghost(n): Ghost<nat>,
)
    requires
        old(batch).tracks(max_args, n),
        n < usize::MAX,
    ensures
        final(batch).tracks(max_args, n + 1),
        same_file(*old(disk_buffer), *final(disk_buffer)),
        final(disk_buffer).written() == old(disk_buffer).written() + separator(
            width(max_args),
            n,
        ) + joined(encoded(str_texts(parts@))) + terminator(width(max_args), n),
{
    proof {
        lemma_next_input(width(max_args) as int, n as int);
    }
    if batch.fill != 0 {
        disk_buffer.write_byte(0x20u8);
    } else {
        batch.count += 1;
    }
    write_joined(disk_buffer, parts);
    batch.fill += 1;
    if batch.fill == batch.width {
        disk_buffer.write_byte(0x0au8);
        batch.fill = 0;
    }
    proof {
        let m = width(max_args);
        assert(disk_buffer.written() =~= old(disk_buffer).written() + separator(m, n) + joined(
            encoded(str_texts(parts@)),
        ) + terminator(m, n));
    }
}

fn finish(
    batch: &Batch,
    disk_buffer: &mut DiskBufferWriter,
    Ghost(max_args): Ghost<usize>,
    Ghost(items): Ghost<Seq<Seq<u8>>>,
    Ghost(base): Ghost<Seq<u8>>,
) -> (count: usize)
    requires
        batch.tracks(max_args, items.len()),
        old(disk_buffer).written() == base + open_lines(items, width(max_args), items.len()),
    ensures
        same_file(*old(disk_buffer), *final(disk_buffer)),
        final(disk_buffer).written() == base + queue(items, max_args),
        count == records(items.len(), max_args),
{
    if batch.fill != 0 {
        disk_buffer.write_byte(0x0au8);
    }
    proof {
        let lines = open_lines(items, width(max_args), items.len());
        if batch.fill != 0 {
            assert(disk_buffer.written() =~= base + (lines + seq![0x0au8]));
        }
        if max_args < 2 {
            vstd::arithmetic::div_mod::lemma_div_basics(items.len() as int);
        }
    }
    batch.count
}

fn write_list(list: &Vec<String>, max_args: usize, disk_buffer: &mut DiskBufferWriter) -> (count:
    usize)
    ensures
        same_file(*old(disk_buffer), *final(disk_buffer)),
        final(disk_buffer).written() == old(disk_buffer).written() + queue(
            encoded(texts(list@)),
            max_args,
        ),
        count == records(list@.len(), max_args),
{
    let ghost items = encoded(texts(list@));
    let ghost base = disk_buffer.written();
    let mut batch = Batch::new(max_args);
    let mut i: usize = 0;
    assert(base + open_lines(items, width(max_args), 0) =~= base);
    while i < list.len()
        invariant
            i <= list@.len(),
            items == encoded(texts(list@)),
            batch.tracks(max_args, i as nat),
            same_file(*old(disk_buffer), *disk_buffer),
            disk_buffer.written() == base + open_lines(items, width(max_args), i as nat),
        decreases list@.len() - i,
    {
        let parts: [&str; 1] = [list[i].as_str()];
        proof {
            let single = encoded(str_texts(parts@));
            assert(single.len() == 1);
            assert(joined(single) == items[i as int]);
        }
        write_item(&mut batch, disk_buffer, parts.as_slice(), Ghost(max_args), Ghost(i as nat));
        proof {
            let m = width(max_args);
            assert(disk_buffer.written() =~= base + open_lines(items, m, (i + 1) as nat));
        }
        i += 1;
    }
    finish(&batch, disk_buffer, Ghost(max_args), Ghost(items), Ghost(base))
}

/// Writes the lines that were read from the standard input to the queue, as
/// many to a record as `max_args` says, and returns the number of records.
pub fn write_stdin_to_disk(
    lines: &Vec<String>,
    max_args: usize,
    disk_buffer: &mut DiskBufferWriter,
) -> (number_of_arguments: usize)
    ensures
        same_file(*old(disk_buffer), *final(disk_buffer)),
        final(disk_buffer).written() == old(disk_buffer).written() + queue(
            encoded(texts(lines@)),
            max_args,
        ),
        number_of_arguments == records(lines@.len(), max_args),
{
    write_list(lines, max_args, disk_buffer)
}

fn as_strs<'a>(list: &'a Vec<String>) -> (strs: Vec<&'a str>)
    ensures
        str_texts(strs@) == texts(list@),
{
    let mut strs: Vec<&'a str> = Vec::new();
    let mut i: usize = 0;
    while i < list.len()
        invariant
            i <= list@.len(),
            strs@.len() == i,
            forall|k: int| 0 <= k < i ==> (#[trigger] strs@[k])@ == list@[k]@,
        decreases list@.len() - i,
    {
        strs.push(list[i].as_str());
        i += 1;
    }
    assert(str_texts(strs@) =~= texts(list@));
    strs
}

fn all_strs<'a>(lists: &'a Vec<Vec<String>>) -> (strs: Vec<Vec<&'a str>>)
    ensures
        strs@.len() == lists@.len(),
        forall|i: int| 0 <= i < lists@.len() ==> str_texts((#[trigger] strs@[i])@) == texts(lists@[i]@),
{
    let mut strs: Vec<Vec<&'a str>> = Vec::new();
    let mut i: usize = 0;
    while i < lists.len()
        invariant
            i <= lists@.len(),
            strs@.len() == i,
            forall|k: int| 0 <= k < i ==> str_texts((#[trigger] strs@[k])@) == texts(lists@[k]@),
        decreases lists@.len() - i,
    {
        strs.push(as_strs(&lists[i]));
        i += 1;
    }
    strs
}

fn as_slices<'a, 'b>(lists: &'a Vec<Vec<&'b str>>) -> (slices: Vec<&'a [&'b str]>)
    ensures
        slices@.len() == lists@.len(),
        forall|i: int| 0 <= i < lists@.len() ==> (#[trigger] slices@[i])@ == lists@[i]@,
{
    let mut slices: Vec<&'a [&'b str]> = Vec::new();
    let mut i: usize = 0;
    while i < lists.len()
        invariant
            i <= lists@.len(),
            slices@.len() == i,
            forall|k: int| 0 <= k < i ==> (#[trigger] slices@[k])@ == lists@[k]@,
        decreases lists@.len() - i,
    {
        slices.push(lists[i].as_slice());
        i += 1;
    }
    slices
}

/// The number of combinations of one input from each of `lists`, where
/// `usize` can hold it.
pub fn combination_count(lists: &Vec<Vec<String>>) -> (count: Option<usize>)
    ensures
        match count {
            Some(count) => count == combinations(lists_of_texts(lists@)),
            None => combinations(lists_of_texts(lists@)) > usize::MAX,
        },
{
    let ghost all = lists_of_texts(lists@);
    if has_empty_list(lists) {
        proof {
            lemma_combinations_none(all);
        }
        return Some(0);
    }
    let mut count: usize = 1;
    let mut i: usize = 0;
    assert(all.subrange(0, 0) =~= Seq::<Seq<Seq<char>>>::empty());
    while i < lists.len()
        invariant
            i <= lists@.len(),
            all == lists_of_texts(lists@),
            all_inhabited(all),
            count == combinations(all.subrange(0, i as int)),
        decreases lists@.len() - i,
    {
        let length = lists[i].len();
        proof {
            let upto = all.subrange(0, i + 1);
            assert(upto.drop_last() =~= all.subrange(0, i as int));
            assert(upto.last().len() == length);
            lemma_combinations_prefix(all, i + 1);
        }
        match count.checked_mul(length) {
            Some(product) => {
                count = product;
            },
            None => {
                return None;
            },
        }
        i += 1;
    }
    assert(all.subrange(0, i as int) =~= all);
    Some(count)
}

fn has_empty_list(lists: &Vec<Vec<String>>) -> (found: bool)
    ensures
        found == !all_inhabited(lists_of_texts(lists@)),
{
    let mut i: usize = 0;
    while i < lists.len()
        invariant
            i <= lists@.len(),
            forall|k: int| 0 <= k < i ==> (#[trigger] lists_of_texts(lists@)[k]).len() > 0,
        decreases lists@.len() - i,
    {
        if lists[i].len() == 0 {
            assert(lists_of_texts(lists@)[i as int].len() == 0);
            return true;
        }
        i += 1;
    }
    false
}

/// Where every list holds an item, the first lists of `lists` have no more
/// combinations than all of them.
proof fn lemma_combinations_prefix<T>(lists: Seq<Seq<T>>, n: int)
    requires
        all_inhabited(lists),
        0 <= n <= lists.len(),
    ensures
        combinations(lists.subrange(0, n)) <= combinations(lists),
    decreases lists.len() - n,
{
    if n < lists.len() {
        lemma_combinations_prefix(lists, n + 1);
        let longer = lists.subrange(0, n + 1);
        assert(longer.drop_last() =~= lists.subrange(0, n));
        assert(longer.last() == lists[n]);
        assert(combinations(longer.drop_last()) <= combinations(longer.drop_last())
            * longer.last().len()) by (nonlinear_arith)
            requires
                longer.last().len() >= 1,
        ;
    } else {
        assert(lists.subrange(0, n) =~= lists);
    }
}

/// Writes the inputs of the jobs to the queue and returns the number of
/// records. With two lists or more the inputs are the combinations of one
/// item from each list, the items of the last list changing fastest; else
/// they are the items of `current_inputs`. As many inputs as `max_args`
/// says go on one line, with spaces between them.
pub fn write_inputs_to_disk(
    lists: Vec<Vec<String>>,
    current_inputs: Vec<String>,
    max_args: usize,
    disk_buffer: &mut DiskBufferWriter,
) -> (number_of_arguments: usize)
    requires
        lists@.len() > 1 ==> combinations(lists_of_texts(lists@)) <= usize::MAX,
    ensures
        same_file(*old(disk_buffer), *final(disk_buffer)),
        final(disk_buffer).written() == old(disk_buffer).written() + queue(
            queue_items(lists@, current_inputs@),
            max_args,
        ),
        number_of_arguments == records(queue_items(lists@, current_inputs@).len(), max_args),
        lists@.len() > 1 ==> number_of_arguments == records(
            combinations(lists_of_texts(lists@)),
            max_args,
        ),
        lists@.len() <= 1 ==> number_of_arguments == records(current_inputs@.len(), max_args),
{
    if lists.len() > 1 {
        write_combinations(&lists, max_args, disk_buffer)
    } else {
        write_list(&current_inputs, max_args, disk_buffer)
    }
}

fn write_combinations(
    lists: &Vec<Vec<String>>,
    max_args: usize,
    disk_buffer: &mut DiskBufferWriter,
) -> (count: usize)
    requires
        lists@.len() > 1,
        combinations(lists_of_texts(lists@)) <= usize::MAX,
    ensures
        same_file(*old(disk_buffer), *final(disk_buffer)),
        final(disk_buffer).written() == old(disk_buffer).written() + queue(
            combined(lists_of_texts(lists@)),
            max_args,
        ),
        count == records(combined(lists_of_texts(lists@)).len(), max_args),
{
    let ghost all = lists_of_texts(lists@);
    let ghost items = combined(all);
    let ghost base = disk_buffer.written();
    let ghost m = width(max_args);
    let mut batch = Batch::new(max_args);
    assert(base + open_lines(items, m, 0) =~= base);
    if has_empty_list(lists) {
        proof {
            lemma_combinations_none(all);
        }
        return finish(&batch, disk_buffer, Ghost(max_args), Ghost(items), Ghost(base));
    }
    proof {
        lemma_combinations_positive(all);
    }
    let strs = all_strs(lists);
    let slices = as_slices(&strs);
    assert(list_texts(slices@) =~= all);
    let mut permutator = permutator_new(slices.as_slice());
    let mut permutation_buffer = match permutator_next(&mut permutator) {
        Some(first) => first,
        None => {
            return 0;
        },
    };
    write_item(
        &mut batch,
        disk_buffer,
        permutation_buffer.as_slice(),
        Ghost(max_args),
        Ghost(0nat),
    );
    assert(disk_buffer.written() =~= base + open_lines(items, m, 1));
    proof {
        lemma_combination_len(all, 0);
    }
    loop
        invariant
            m == width(max_args),
            items == combined(all),
            all.len() >= 2,
            all_inhabited(all),
            combinations(all) <= usize::MAX,
            permutator_lists(permutator) == all,
            permutation_buffer@.len() == all.len(),
            1 <= permutator_position(permutator) <= combinations(all),
            batch.tracks(max_args, permutator_position(permutator)),
            same_file(*old(disk_buffer), *disk_buffer),
            disk_buffer.written() == base + open_lines(items, m, permutator_position(permutator)),
        ensures
            permutator_position(permutator) == combinations(all),
            batch.tracks(max_args, permutator_position(permutator)),
            same_file(*old(disk_buffer), *disk_buffer),
            disk_buffer.written() == base + open_lines(items, m, permutator_position(permutator)),
        decreases combinations(all) - permutator_position(permutator),
    {
        let ghost n = permutator_position(permutator);
        match permutator_next_with_buffer(&mut permutator, &mut permutation_buffer) {
            Ok(true) => {
                proof {
                    lemma_combination_len(all, n as int);
                }
                write_item(
                    &mut batch,
                    disk_buffer,
                    permutation_buffer.as_slice(),
                    Ghost(max_args),
                    Ghost(n),
                );
                assert(disk_buffer.written() =~= base + open_lines(items, m, n + 1));
            },
            _ => {
                break ;
            },
        }
    }
    finish(&batch, disk_buffer, Ghost(max_args), Ghost(items), Ghost(base))
}

/// How often `byte` occurs in `bytes`.
pub open spec fn count_of(bytes: Seq<u8>, byte: u8) -> nat
    decreases bytes.len(),
{
    if bytes.len() == 0 {
        0
    } else if bytes.last() == byte {
        count_of(bytes.drop_last(), byte) + 1
    } else {
        count_of(bytes.drop_last(), byte)
    }
}

proof fn lemma_count_of_concat(a: Seq<u8>, b: Seq<u8>, byte: u8)
    ensures
        count_of(a + b, byte) == count_of(a, byte) + count_of(b, byte),
    decreases b.len(),
{
    if b.len() == 0 {
        assert(a + b =~= a);
    } else {
        lemma_count_of_concat(a, b.drop_last(), byte);
        assert((a + b).drop_last() =~= a + b.drop_last());
    }
}

proof fn lemma_count_of_single(byte: u8, other: u8)
    ensures
        count_of(seq![other], byte) == if other == byte {
            1nat
        } else {
            0nat
        },
        count_of(Seq::<u8>::empty(), byte) == 0,
{
    let single = seq![other];
    assert(single.drop_last() =~= Seq::<u8>::empty());
    assert(count_of(single.drop_last(), byte) == 0);
    assert(single.last() == other);
}

/// How the number of full lines moves on with one more input.
proof fn lemma_full_lines(m: int, n: int)
    requires
        m >= 1,
        n >= 0,
    ensures
        (n + 1) / m == n / m + if n % m == m - 1 {
            1int
        } else {
            0int
        },
        (n + m - 1) / m == n / m + if n % m != 0 {
            1int
        } else {
            0int
        },
        0 <= n / m,
{
    let q = n / m;
    let r = n % m;
    vstd::arithmetic::div_mod::lemma_fundamental_div_mod(n, m);
    vstd::arithmetic::div_mod::lemma_mod_bound(n, m);
    assert(q >= 0) by (nonlinear_arith)
        requires
            n == m * q + r,
            m >= 1,
            0 <= r < m,
            n >= 0,
    ;
    assert(m * (q + 1) == m * q + m) by (nonlinear_arith);
    assert((q + 1) * m == m * q + m) by (nonlinear_arith);
    assert(q * m == m * q) by (nonlinear_arith);
    if r == m - 1 {
        vstd::arithmetic::div_mod::lemma_fundamental_div_mod_converse(n + 1, m, q + 1, 0);
    } else {
        vstd::arithmetic::div_mod::lemma_fundamental_div_mod_converse(n + 1, m, q, r + 1);
    }
    if r == 0 {
        if m == 1 {
            vstd::arithmetic::div_mod::lemma_fundamental_div_mod_converse(n + m - 1, m, q, 0);
        } else {
            vstd::arithmetic::div_mod::lemma_fundamental_div_mod_converse(n + m - 1, m, q, m - 1);
        }
    } else {
        vstd::arithmetic::div_mod::lemma_fundamental_div_mod_converse(n + m - 1, m, q + 1, r - 1);
    }
}

/// The first `n` inputs, written `m` to a line, hold one end of a line for
/// each line that is full, where no input holds one.
proof fn lemma_open_lines_count(items: Seq<Seq<u8>>, m: nat, n: nat)
    requires
        m >= 1,
        n <= items.len(),
        forall|i: int| 0 <= i < items.len() ==> count_of(#[trigger] items[i], 0x0au8) == 0,
    ensures
        count_of(open_lines(items, m, n), 0x0au8) == n as int / m as int,
    decreases n,
{
    if n == 0 {
        lemma_full_lines(m as int, 0);
        vstd::arithmetic::div_mod::lemma_div_basics(m as int);
    } else {
        let k = (n - 1) as nat;
        lemma_open_lines_count(items, m, k);
        lemma_full_lines(m as int, k as int);
        let before = open_lines(items, m, k);
        lemma_count_of_concat(before + separator(m, k) + items[k as int], terminator(m, k), 0x0au8);
        lemma_count_of_concat(before + separator(m, k), items[k as int], 0x0au8);
        lemma_count_of_concat(before, separator(m, k), 0x0au8);
        lemma_count_of_single(0x0au8, 0x20u8);
        lemma_count_of_single(0x0au8, 0x0au8);
    }
}

/// The queue holds as many ends of lines as it has records, where no
/// input holds one: each record is one line.
pub proof fn lemma_queue_records(items: Seq<Seq<u8>>, max_args: usize)
    requires
        forall|i: int| 0 <= i < items.len() ==> count_of(#[trigger] items[i], 0x0au8) == 0,
    ensures
        count_of(queue(items, max_args), 0x0au8) == records(items.len(), max_args),
{
    let m = width(max_args);
    lemma_open_lines_count(items, m, items.len());
    lemma_full_lines(m as int, items.len() as int);
    lemma_count_of_concat(open_lines(items, m, items.len()), seq![0x0au8], 0x0au8);
    lemma_count_of_single(0x0au8, 0x0au8);
    if max_args < 2 {
        vstd::arithmetic::div_mod::lemma_div_basics(items.len() as int);
    }
}

} // verus!
