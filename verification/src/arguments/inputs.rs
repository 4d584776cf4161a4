//! Gathers the lists of inputs from the arguments that follow the command.

use super::errors::{outcome, FileErr, FileError, ParseErr, ParseError};
use super::queue::lists_of_texts;
use super::{merge_lists, zipped, Mode};
use crate::command::texts;
use crate::text::str_eq;
use vstd::prelude::*;

verus! {

/// The mode that `argument` switches to, where it is one of the four
/// separators of lists.
pub open spec fn separator_mode(argument: Seq<char>) -> Option<Mode> {
    if argument == ":::"@ {
        Some(Mode::Inputs)
    } else if argument == ":::+"@ {
        Some(Mode::InputsAppend)
    } else if argument == "::::"@ {
        Some(Mode::Files)
    } else if argument == "::::+"@ {
        Some(Mode::FilesAppend)
    } else {
        None
    }
}

/// Whether what is read in `mode` is joined to the list before.
pub open spec fn appends(mode: Mode) -> bool {
    mode is InputsAppend || mode is FilesAppend
}

/// Whether the arguments read in `mode` name files.
pub open spec fn reads_files(mode: Mode) -> bool {
    mode is Files || mode is FilesAppend
}

/// The lines of the files that were read for the arguments that name one,
/// in the order of those arguments. `None` stands for a file that could not
/// be read.
pub open spec fn file_contents(files: Seq<Option<Vec<String>>>) -> Seq<Option<Seq<Seq<char>>>> {
    Seq::new(
        files.len(),
        |i: int|
            match files[i] {
                Some(lines) => Some(texts(lines@)),
                None => None,
            },
    )
}

/// What has been gathered at some point among the arguments.
pub struct Gathered {
    /// What the next argument belongs to.
    pub mode: Mode,
    /// The list that is being filled.
    pub current: Seq<Seq<char>>,
    /// The items that will be joined to those of `current`.
    pub append: Seq<Seq<char>>,
    /// The lists that are complete.
    pub lists: Seq<Seq<Seq<char>>>,
    /// The number of files that were used.
    pub files: nat,
}

impl Gathered {
    /// With the items that wait in `append` joined to the current list, where
    /// the mode is one that appends.
    pub open spec fn merged(self) -> Gathered {
        if appends(self.mode) {
            Gathered { current: zipped(self.current, self.append), append: Seq::empty(), ..self }
        } else {
            self
        }
    }

    /// With the current list among the complete ones, where it holds anything.
    pub open spec fn kept(self) -> Gathered {
        if self.current.len() > 0 {
            Gathered { lists: self.lists.push(self.current), ..self }
        } else {
            self
        }
    }

    /// After a separator that switches to `mode`. One that appends keeps the
    /// current list as the base of what follows; another one completes it
    /// and starts a new one.
    pub open spec fn switched(self, mode: Mode) -> Gathered {
        if appends(mode) {
            Gathered { mode, ..self.merged() }
        } else {
            Gathered { mode, current: Seq::empty(), ..self.merged().kept() }
        }
    }

    /// After an argument that is no separator: an input, or the name of a
    /// file whose lines are inputs.
    pub open spec fn taken(self, argument: Seq<char>, files: Seq<Option<Seq<Seq<char>>>>) -> Gathered {
        match self.mode {
            Mode::Inputs => Gathered { current: self.current.push(argument), ..self },
            Mode::InputsAppend => Gathered { append: self.append.push(argument), ..self },
            Mode::Files => Gathered {
                current: self.current + lines_of(files, self.files as int),
                files: self.files + 1,
                ..self
            },
            Mode::FilesAppend => Gathered {
                append: self.append + lines_of(files, self.files as int),
                files: self.files + 1,
                ..self
            },
            _ => self,
        }
    }

    /// After `argument`.
    pub open spec fn after(self, argument: Seq<char>, files: Seq<Option<Seq<Seq<char>>>>) -> Gathered {
        match separator_mode(argument) {
            Some(mode) => self.switched(mode),
            None => self.taken(argument, files),
        }
    }

    /// After the arguments from `from` on.
    pub open spec fn after_all(
        self,
        arguments: Seq<Seq<char>>,
        files: Seq<Option<Seq<Seq<char>>>>,
        from: int,
    ) -> Gathered
        decreases arguments.len() - from,
    {
        if from < 0 || from >= arguments.len() {
            self
        } else {
            self.after(arguments[from], files).after_all(arguments, files, from + 1)
        }
    }

    /// At the end of the arguments: what waits is joined, and the current
    /// list counts among the lists.
    pub open spec fn closed(self) -> Gathered {
        self.merged().kept()
    }
}

/// The lines of file number `at`; none where that file was not read.
pub open spec fn lines_of(files: Seq<Option<Seq<Seq<char>>>>, at: int) -> Seq<Seq<char>> {
    if 0 <= at < files.len() {
        match files[at] {
            Some(lines) => lines,
            None => Seq::empty(),
        }
    } else {
        Seq::empty()
    }
}

/// The positions of the arguments from `from` on that name a file, where
/// the argument at `from` is read in `mode`.
pub open spec fn file_positions(arguments: Seq<Seq<char>>, from: int, mode: Mode) -> Seq<int>
    decreases arguments.len() - from,
{
    if from < 0 || from >= arguments.len() {
        Seq::empty()
    } else {
        match separator_mode(arguments[from]) {
            Some(next) => file_positions(arguments, from + 1, next),
            None => if reads_files(mode) {
                seq![from] + file_positions(arguments, from + 1, mode)
            } else {
                file_positions(arguments, from + 1, mode)
            },
        }
    }
}

/// The position of the first argument that names a file that was not read,
/// among the arguments at `positions` from number `k` on.
pub open spec fn first_unread(
    positions: Seq<int>,
    files: Seq<Option<Seq<Seq<char>>>>,
    k: int,
) -> Option<int>
    decreases positions.len() - k,
{
    if k < 0 || k >= positions.len() {
        None
    } else if k < files.len() && files[k] is Some {
        first_unread(positions, files, k + 1)
    } else {
        Some(positions[k])
    }
}

/// What has been gathered before the first argument is read.
pub open spec fn at_start(mode: Mode, current: Seq<String>, lists: Seq<Vec<String>>) -> Gathered {
    Gathered {
        mode,
        current: texts(current),
        append: Seq::empty(),
        lists: lists_of_texts(lists),
        files: 0,
    }
}

/// What `parse_inputs` makes of the arguments from `index` on: the lists
/// that they give, or the position of the first argument that names a file
/// that was not read.
pub open spec fn inputs_of(
    arguments: Seq<Seq<char>>,
    index: int,
    files: Seq<Option<Seq<Seq<char>>>>,
    start: Gathered,
) -> Result<Gathered, int> {
    match first_unread(file_positions(arguments, index, start.mode), files, 0) {
        Some(position) => Err(position),
        None => Ok(start.after_all(arguments, files, index).closed()),
    }
}

fn separator(argument: &str) -> (mode: Option<Mode>)
    ensures
        mode == separator_mode(argument@),
{
    if str_eq(argument, ":::") {
        Some(Mode::Inputs)
    } else if str_eq(argument, ":::+") {
        Some(Mode::InputsAppend)
    } else if str_eq(argument, "::::") {
        Some(Mode::Files)
    } else if str_eq(argument, "::::+") {
        Some(Mode::FilesAppend)
    } else {
        None
    }
}

fn is_file_mode(mode: Mode) -> (files: bool)
    ensures
        files == reads_files(mode),
{
    match mode {
        Mode::Files => true,
        Mode::FilesAppend => true,
        _ => false,
    }
}

fn is_append_mode(mode: Mode) -> (append: bool)
    ensures
        append == appends(mode),
{
    match mode {
        Mode::InputsAppend => true,
        Mode::FilesAppend => true,
        _ => false,
    }
}

/// The positions of the arguments from `index` on that name a file of
/// inputs, in order: the caller reads these files and hands their lines to
/// `parse_inputs`.
pub fn file_arguments(arguments: &[String], index: usize, mode: Mode) -> (positions: Vec<usize>)
    ensures
        positions@.map_values(|p: usize| p as int) == file_positions(
            texts(arguments@),
            index as int,
            mode,
        ),
{
    let ghost all = texts(arguments@);
    let mut positions: Vec<usize> = Vec::new();
    let first = mode;
    let mut mode = mode;
    let mut i: usize = index;
    if i > arguments.len() {
        assert(positions@.map_values(|p: usize| p as int) =~= Seq::<int>::empty());
        return positions;
    }
    while i < arguments.len()
        invariant
            i <= arguments@.len(),
            all == texts(arguments@),
            positions@.map_values(|p: usize| p as int) + file_positions(all, i as int, mode)
                == file_positions(all, index as int, first),
        decreases arguments@.len() - i,
    {
        let ghost before = positions@.map_values(|p: usize| p as int);
        match separator(arguments[i].as_str()) {
            Some(next) => {
                mode = next;
            },
            None => {
                if is_file_mode(mode) {
                    positions.push(i);
                    assert(positions@.map_values(|p: usize| p as int) =~= before.push(i as int));
                    assert(before.push(i as int) + file_positions(all, i + 1, mode) =~= before
                        + (seq![i as int] + file_positions(all, i + 1, mode)));
                }
            },
        }
        i += 1;
    }
    assert(positions@.map_values(|p: usize| p as int) + Seq::<int>::empty()
        =~= positions@.map_values(|p: usize| p as int));
    positions
}

fn clone_list(list: &Vec<String>) -> (copy: Vec<String>)
    ensures
        texts(copy@) == texts(list@),
{
    let mut copy: Vec<String> = Vec::new();
    extend_with(&mut copy, list);
    assert(Seq::<Seq<char>>::empty() + texts(list@) =~= texts(list@));
    copy
}

fn extend_with(list: &mut Vec<String>, lines: &Vec<String>)
    ensures
        texts(final(list)@) == texts(old(list)@) + texts(lines@),
{
    let mut i: usize = 0;
    while i < lines.len()
        invariant
            i <= lines@.len(),
            texts(list@) == texts(old(list)@) + texts(lines@.subrange(0, i as int)),
        decreases lines@.len() - i,
    {
        let ghost before = list@;
        list.push(lines[i].clone());
        assert(texts(list@) =~= texts(before).push(lines@[i as int]@));
        assert(texts(lines@.subrange(0, i + 1)) =~= texts(lines@.subrange(0, i as int)).push(
            lines@[i as int]@,
        ));
        i += 1;
    }
    assert(lines@.subrange(0, i as int) =~= lines@);
}

fn keep(current_inputs: &Vec<String>, lists: &mut Vec<Vec<String>>)
    ensures
        lists_of_texts(final(lists)@) == if current_inputs@.len() > 0 {
            lists_of_texts(old(lists)@).push(texts(current_inputs@))
        } else {
            lists_of_texts(old(lists)@)
        },
{
    if current_inputs.len() > 0 {
        let copy = clone_list(current_inputs);
        lists.push(copy);
        assert(lists_of_texts(lists@) =~= lists_of_texts(old(lists)@).push(texts(current_inputs@)));
    }
}

/// Whether the arguments from `index` on can be read in `mode`: a mode
/// that takes no inputs is only good for the end of the arguments or for a
/// separator, which opens a list.
pub open spec fn readable_in(arguments: Seq<Seq<char>>, index: int, mode: Mode) -> bool {
    (mode is Arguments || mode is Command) ==> (index >= arguments.len() || separator_mode(
        arguments[index],
    ) is Some)
}

/// Gathers the lists of inputs from the arguments from `index` on, which
/// are read in `mode` first. `:::` and `::::` begin a new list, of inputs or
/// of files whose lines are inputs; `:::+` and `::::+` join what follows
/// them, item by item, to the list before. `files` holds the lines of the
/// files that `file_arguments` names, in that order. Where one was not
/// read, the error names it and nothing is changed.
pub fn parse_inputs(
    arguments: &[String],
    index: usize,
    files: &[Option<Vec<String>>],
    current_inputs: &mut Vec<String>,
    lists: &mut Vec<Vec<String>>,
    mode: &mut Mode,
) -> (result: Result<(), ParseErr>)
    requires
        readable_in(texts(arguments@), index as int, *old(mode)),
    ensures
        match inputs_of(
            texts(arguments@),
            index as int,
            file_contents(files@),
            at_start(*old(mode), old(current_inputs)@, old(lists)@),
        ) {
            Ok(gathered) => {
                &&& result is Ok
                &&& *final(mode) == gathered.mode
                &&& texts(final(current_inputs)@) == gathered.current
                &&& lists_of_texts(final(lists)@) == gathered.lists
            },
            Err(position) => {
                &&& 0 <= position < arguments@.len()
                &&& outcome(result) == Err::<(), ParseError>(
                    ParseError::File(FileError::Open(arguments@[position]@)),
                )
                &&& *final(mode) == *old(mode)
                &&& *final(current_inputs) == *old(current_inputs)
                &&& *final(lists) == *old(lists)
            },
        },
{
    let ghost all = texts(arguments@);
    let ghost contents = file_contents(files@);
    let ghost start = at_start(*mode, current_inputs@, lists@);
    let positions = file_arguments(arguments, index, *mode);
    let ghost places = positions@.map_values(|p: usize| p as int);
    proof {
        lemma_file_positions(all, index as int, *mode);
    }
    let mut k: usize = 0;
    while k < positions.len()
        invariant
            k <= positions@.len(),
            places == positions@.map_values(|p: usize| p as int),
            places == file_positions(all, index as int, *mode),
            all == texts(arguments@),
            forall|j: int| 0 <= j < places.len() ==> 0 <= (#[trigger] places[j]) < all.len(),
            contents == file_contents(files@),
            *mode == *old(mode),
            *current_inputs == *old(current_inputs),
            *lists == *old(lists),
            start == at_start(*old(mode), old(current_inputs)@, old(lists)@),
            first_unread(places, contents, k as int) == first_unread(places, contents, 0),
            forall|j: int| 0 <= j < k ==> j < files@.len() && (#[trigger] files@[j]) is Some,
        decreases positions@.len() - k,
    {
        let read = k < files.len() && files[k].is_some();
        if !read {
            assert(0 <= places[k as int] < all.len());
            assert(places[k as int] == positions@[k as int]);
            return Err(ParseErr::File(FileErr::Open(arguments[positions[k]].clone())));
        }
        k += 1;
    }
    let mut append_list: Vec<String> = Vec::new();
    let mut used: usize = 0;
    let ghost mut gathered = start;
    let mut i: usize = index;
    assert(places.subrange(0, places.len() as int) =~= places);
    while i < arguments.len()
        invariant
            all == texts(arguments@),
            contents == file_contents(files@),
            places == positions@.map_values(|p: usize| p as int),
            forall|j: int|
                0 <= j < positions@.len() ==> j < files@.len() && (#[trigger] files@[j]) is Some,
            used <= positions@.len(),
            places.subrange(used as int, places.len() as int) == file_positions(
                all,
                i as int,
                *mode,
            ),
            gathered.mode == *mode,
            gathered.current == texts(current_inputs@),
            gathered.append == texts(append_list@),
            gathered.lists == lists_of_texts(lists@),
            gathered.files == used,
            gathered.after_all(all, contents, i as int) == start.after_all(
                all,
                contents,
                index as int,
            ),
        decreases arguments@.len() - i,
    {
        let argument = &arguments[i];
        let ghost before = gathered;
        proof {
            gathered = before.after(all[i as int], contents);
        }
        match separator(argument.as_str()) {
            Some(next) => {
                if is_append_mode(*mode) {
                    merge_lists(current_inputs, &mut append_list);
                    assert(texts(append_list@) =~= Seq::<Seq<char>>::empty());
                }
                if !is_append_mode(next) {
                    keep(current_inputs, lists);
                    current_inputs.clear();
                    assert(texts(current_inputs@) =~= Seq::<Seq<char>>::empty());
                }
                *mode = next;
            },
            None => {
                match *mode {
                    Mode::Inputs => {
                        let ghost list = current_inputs@;
                        current_inputs.push(argument.clone());
                        assert(texts(current_inputs@) =~= texts(list).push(argument@));
                    },
                    Mode::InputsAppend => {
                        let ghost list = append_list@;
                        append_list.push(argument.clone());
                        assert(texts(append_list@) =~= texts(list).push(argument@));
                    },
                    Mode::Files => {
                        assert(places.subrange(used as int, places.len() as int).len() > 0);
                        assert(files@[used as int] is Some);
                        match &files[used] {
                            Some(lines) => {
                                extend_with(current_inputs, lines);
                            },
                            None => {},
                        }
                        assert(places.subrange(used + 1, places.len() as int)
                            =~= places.subrange(used as int, places.len() as int).subrange(
                            1,
                            places.len() - used,
                        ));
                        used += 1;
                    },
                    Mode::FilesAppend => {
                        assert(places.subrange(used as int, places.len() as int).len() > 0);
                        assert(files@[used as int] is Some);
                        match &files[used] {
                            Some(lines) => {
                                extend_with(&mut append_list, lines);
                            },
                            None => {},
                        }
                        assert(places.subrange(used + 1, places.len() as int)
                            =~= places.subrange(used as int, places.len() as int).subrange(
                            1,
                            places.len() - used,
                        ));
                        used += 1;
                    },
                    _ => {},
                }
            },
        }
        i += 1;
    }
    if is_append_mode(*mode) {
        merge_lists(current_inputs, &mut append_list);
    }
    keep(current_inputs, lists);
    Ok(())
}

/// The positions of the arguments that name a file lie among the arguments.
proof fn lemma_file_positions(arguments: Seq<Seq<char>>, from: int, mode: Mode)
    ensures
        forall|k: int|
            0 <= k < file_positions(arguments, from, mode).len() ==> 0 <= (
            #[trigger] file_positions(arguments, from, mode)[k]) < arguments.len(),
    decreases arguments.len() - from,
{
    let all = file_positions(arguments, from, mode);
    if 0 <= from < arguments.len() {
        let next = match separator_mode(arguments[from]) {
            Some(next) => next,
            None => mode,
        };
        let rest = file_positions(arguments, from + 1, next);
        lemma_file_positions(arguments, from + 1, next);
        if separator_mode(arguments[from]) is None && reads_files(mode) {
            assert(all == seq![from] + rest);
            assert forall|k: int| 0 <= k < all.len() implies 0 <= (#[trigger] all[k])
                < arguments.len() by {
                if k > 0 {
                    assert(all[k] == rest[k - 1]);
                }
            }
        } else {
            assert(all == rest);
        }
    } else {
        assert(all.len() == 0);
    }
}

} // verus!
