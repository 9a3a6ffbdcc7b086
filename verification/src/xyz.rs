//! Systems in the XYZ text format.
//!
//! The first line of the text holds the number of atoms and the second a
//! comment. Each line after that describes one atom: its name and the three
//! components of its position, separated by white space. What follows the
//! fourth word of a line is ignored. The text must have two lines more than
//! the first line says there are atoms.
//!
//! The components of a position are read by a function that the caller hands
//! in, and kept as the bits that it returns.

use vstd::prelude::*;
use core::num::{ParseFloatError, ParseIntError};
use crate::cell::{RawVector, UnitCell};
use crate::particle::{Particle, NO_KIND};
use crate::universe::{names_with, kind_in, Universe};

verus! {

/// The error of an input or output operation of the standard library.
#[verifier::external_type_specification]
#[verifier::external_body]
pub struct ExIoError(std::io::Error);

/// The error of the standard library for a string that is no integer.
#[verifier::external_type_specification]
#[verifier::external_body]
pub struct ExParseIntError(core::num::ParseIntError);

/// The error of the standard library for a string that is no real number.
#[verifier::external_type_specification]
#[verifier::external_body]
pub struct ExParseFloatError(core::num::ParseFloatError);

/// Possible causes of error when reading an XYZ file.
#[derive(Debug)]
pub enum ReadError {
    /// The file could not be read.
    IoError(std::io::Error),
    /// The number of atoms is no number.
    ParseIntError(ParseIntError),
    /// A component of a position is no number.
    ParseFloatError(ParseFloatError),
    /// The text does not have the form of an XYZ file.
    XYZFormatError { err: &'static str },
}

impl From<ParseIntError> for ReadError {
    fn from(err: ParseIntError) -> (error: ReadError) {
        ReadError::ParseIntError(err)
    }
}

impl vstd::std_specs::convert::FromSpecImpl<ParseIntError> for ReadError {
    open spec fn obeys_from_spec() -> bool {
        true
    }

    open spec fn from_spec(err: ParseIntError) -> ReadError {
        ReadError::ParseIntError(err)
    }
}

impl From<ParseFloatError> for ReadError {
    fn from(err: ParseFloatError) -> (error: ReadError) {
        ReadError::ParseFloatError(err)
    }
}

impl vstd::std_specs::convert::FromSpecImpl<ParseFloatError> for ReadError {
    open spec fn obeys_from_spec() -> bool {
        true
    }

    open spec fn from_spec(err: ParseFloatError) -> ReadError {
        ReadError::ParseFloatError(err)
    }
}

impl From<std::io::Error> for ReadError {
    fn from(err: std::io::Error) -> (error: ReadError) {
        ReadError::IoError(err)
    }
}

impl vstd::std_specs::convert::FromSpecImpl<std::io::Error> for ReadError {
    open spec fn obeys_from_spec() -> bool {
        true
    }

    open spec fn from_spec(err: std::io::Error) -> ReadError {
        ReadError::IoError(err)
    }
}

/// The lines of a text, as `str::lines` splits it.
pub uninterp spec fn lines_of(content: Seq<char>) -> Seq<Seq<char>>;

/// The words of a line, as `str::split_whitespace` splits it.
pub uninterp spec fn words_of(line: Seq<char>) -> Seq<Seq<char>>;

/// The unsigned integer that a text is, as `str::parse` reads it, where it
/// reads it as one.
pub uninterp spec fn count_of(text: Seq<char>) -> Option<usize>;

/// `str::lines`, collected: the lines of `content`, in order.
#[verifier::external_body]
fn lines<'a>(content: &'a str) -> (lines: Vec<&'a str>)
    ensures
        lines@.len() == lines_of(content@).len(),
        forall|i: int| 0 <= i < lines@.len() ==> (#[trigger] lines@[i])@ == lines_of(content@)[i],
{
    content.lines().collect()
}

/// `str::split_whitespace`, collected: the words of `line`, in order.
#[verifier::external_body]
fn words<'a>(line: &'a str) -> (words: Vec<&'a str>)
    ensures
        words@.len() == words_of(line@).len(),
        forall|i: int| 0 <= i < words@.len() ==> (#[trigger] words@[i])@ == words_of(line@)[i],
{
    line.split_whitespace().collect()
}

/// `str::parse` for an unsigned integer: the number that `text` is, or the
/// error of the standard library where it is none.
#[verifier::external_body]
fn count(text: &str) -> (found: Result<usize, ParseIntError>)
    ensures
        match found {
            Ok(number) => count_of(text@) == Some(number),
            Err(_) => count_of(text@) is None,
        },
{
    text.parse::<usize>()
}

/// Whether `found` is what `parse` makes of the word `word`.
pub open spec fn component_read<P: Fn(&str) -> Result<u64, ParseFloatError>>(
    parse: &P,
    word: Seq<char>,
    found: Result<u64, ParseFloatError>,
) -> bool {
    exists|given: &str| given@ == word && #[trigger] call_ensures(*parse, (given,), found)
}

/// Whether `err` is the error for a text that has not the form of an XYZ
/// file, with the message `message`.
pub open spec fn format_error(err: ReadError, message: Seq<char>) -> bool {
    err matches ReadError::XYZFormatError { err } && err@ == message
}

/// Whether `found` is what the line `line` gives as an atom: its name with
/// the bits of the three components of its position.
pub open spec fn atom_read<P: Fn(&str) -> Result<u64, ParseFloatError>>(
    parse: &P,
    line: Seq<char>,
    found: Result<(Seq<char>, RawVector), ReadError>,
) -> bool {
    let words = words_of(line);
    if words.len() < 4 {
        found is Err && format_error(found->Err_0, "Line is too short."@)
    } else {
        exists|
            x: Result<u64, ParseFloatError>,
            y: Result<u64, ParseFloatError>,
            z: Result<u64, ParseFloatError>,
        |
            {
                &&& #[trigger] components_read(parse, words, x, y, z)
                &&& match x {
                    Err(e) => found == Err::<(Seq<char>, RawVector), ReadError>(
                        ReadError::ParseFloatError(e),
                    ),
                    Ok(x) => match y {
                        Err(e) => found == Err::<(Seq<char>, RawVector), ReadError>(
                            ReadError::ParseFloatError(e),
                        ),
                        Ok(y) => match z {
                            Err(e) => found == Err::<(Seq<char>, RawVector), ReadError>(
                                ReadError::ParseFloatError(e),
                            ),
                            Ok(z) => found == Ok::<(Seq<char>, RawVector), ReadError>(
                                (words[0], RawVector { x, y, z }),
                            ),
                        },
                    },
                }
            }
    }
}

/// Whether `x`, `y` and `z` are what `parse` makes of the second, third and
/// fourth word. A component that is not reached, because one before it is no
/// number, may be anything.
pub open spec fn components_read<P: Fn(&str) -> Result<u64, ParseFloatError>>(
    parse: &P,
    words: Seq<Seq<char>>,
    x: Result<u64, ParseFloatError>,
    y: Result<u64, ParseFloatError>,
    z: Result<u64, ParseFloatError>,
) -> bool {
    &&& component_read(parse, words[1], x)
    &&& x is Ok ==> component_read(parse, words[2], y)
    &&& x is Ok && y is Ok ==> component_read(parse, words[3], z)
}

/// The names that a system has numbered after particles with the names
/// `names` were added to it, in order.
pub open spec fn numbered(names: Seq<Seq<char>>) -> Seq<Seq<char>>
    decreases names.len(),
{
    if names.len() == 0 {
        Seq::empty()
    } else {
        names_with(numbered(names.drop_last()), names.last())
    }
}

/// Whether `particle` is the atom number `i` of `atoms` as a system holds
/// it: with its name, its position, the kind of its name, and zero bits for
/// everything else.
pub open spec fn holds_atom(particle: Particle, atoms: Seq<(Seq<char>, RawVector)>, i: int) -> bool {
    &&& particle.name@ == atoms[i].0
    &&& particle.position == atoms[i].1
    &&& particle.kind == kind_in(numbered(names_of(atoms.subrange(0, i))), atoms[i].0) as u16
    &&& particle.mass == 0
    &&& particle.charge == 0
    &&& particle.velocity == (RawVector { x: 0, y: 0, z: 0 })
}

/// The names of the atoms.
pub open spec fn names_of(atoms: Seq<(Seq<char>, RawVector)>) -> Seq<Seq<char>> {
    Seq::new(atoms.len(), |i: int| atoms[i].0)
}

/// Whether `universe` is the system of the atoms `atoms`: in a cell without
/// boundaries, with the atoms as its particles in order, and without any
/// interaction.
pub open spec fn holds_atoms(universe: Universe, atoms: Seq<(Seq<char>, RawVector)>) -> bool {
    &&& universe.wf()
    &&& universe.spec_cell() == UnitCell::new()
    &&& universe.spec_kinds() == numbered(names_of(atoms))
    &&& universe.spec_particles().len() == atoms.len()
    &&& forall|i: int|
        0 <= i < atoms.len() ==> holds_atom(#[trigger] universe.spec_particles()[i], atoms, i)
    &&& forall|i: u16, j: u16| !universe.has_pairs(i, j)
    &&& forall|i: u16, j: u16, k: u16| !universe.has_angles(i, j, k)
    &&& forall|i: u16, j: u16, k: u16, m: u16| !universe.has_dihedrals(i, j, k, m)
}

/// Whether the lines `lines` from the third on give the atoms `atoms`, one
/// each.
pub open spec fn atoms_read<P: Fn(&str) -> Result<u64, ParseFloatError>>(
    parse: &P,
    lines: Seq<Seq<char>>,
    atoms: Seq<(Seq<char>, RawVector)>,
) -> bool {
    &&& atoms.len() + 2 == lines.len()
    &&& forall|i: int|
        0 <= i < atoms.len() ==> atom_read(
            parse,
            lines[i + 2],
            Ok::<(Seq<char>, RawVector), ReadError>(#[trigger] atoms[i]),
        )
}

/// Whether `found` is what reading the text `content` as an XYZ file gives.
///
/// The first line has to be a number, and the text must have two lines more
/// than that. The lines of the atoms are then read in order, and the first
/// that cannot be read gives the error.
pub open spec fn xyz_read<P: Fn(&str) -> Result<u64, ParseFloatError>>(
    parse: &P,
    content: Seq<char>,
    found: Result<Universe, ReadError>,
) -> bool {
    let lines = lines_of(content);
    match count_of(lines[0]) {
        None => found matches Err(ReadError::ParseIntError(_)),
        Some(natoms) => if lines.len() != natoms + 2 {
            found is Err && format_error(found->Err_0, "Bad atom number in file."@)
        } else {
            match found {
                Ok(universe) => exists|atoms: Seq<(Seq<char>, RawVector)>|
                    #[trigger] atoms_read(parse, lines, atoms) && holds_atoms(universe, atoms),
                Err(error) => exists|atoms: Seq<(Seq<char>, RawVector)>|
                    {
                        &&& atoms.len() + 2 < lines.len()
                        &&& #[trigger] atoms_read(parse, lines.subrange(0, atoms.len() + 2 as int), atoms)
                        &&& atom_read(
                            parse,
                            lines[atoms.len() + 2 as int],
                            Err::<(Seq<char>, RawVector), ReadError>(error),
                        )
                    },
            }
        },
    }
}

/// The atom that the line `line` describes.
fn atom<P: Fn(&str) -> Result<u64, ParseFloatError>>(line: &str, parse: &P) -> (found: Result<
    Particle,
    ReadError,
>)
    requires
        forall|text: &str| call_requires(*parse, (text,)),
    ensures
        match found {
            Ok(particle) => {
                &&& atom_read(
                    parse,
                    line@,
                    Ok::<(Seq<char>, RawVector), ReadError>((particle.name@, particle.position)),
                )
                &&& particle.kind == NO_KIND
                &&& particle.mass == 0
                &&& particle.charge == 0
                &&& particle.velocity == (RawVector { x: 0, y: 0, z: 0 })
            },
            Err(error) => atom_read(
                parse,
                line@,
                Err::<(Seq<char>, RawVector), ReadError>(error),
            ),
        },
{
    let splited = words(line);
    if splited.len() < 4 {
        return Err(ReadError::XYZFormatError { err: "Line is too short." });
    }
    let ghost all = words_of(line@);
    let ghost unread = Ok::<u64, ParseFloatError>(0);
    let mut part = Particle::new(splited[0]);
    let x = parse(splited[1]);
    assert(component_read(parse, all[1], x));
    let x = match x {
        Ok(x) => x,
        Err(e) => {
            assert(components_read(parse, all, Err::<u64, ParseFloatError>(e), unread, unread));
            return Err(ReadError::from(e));
        },
    };
    let y = parse(splited[2]);
    assert(component_read(parse, all[2], y));
    let y = match y {
        Ok(y) => y,
        Err(e) => {
            assert(components_read(
                parse,
                all,
                Ok::<u64, ParseFloatError>(x),
                Err::<u64, ParseFloatError>(e),
                unread,
            ));
            return Err(ReadError::from(e));
        },
    };
    let z = parse(splited[3]);
    assert(component_read(parse, all[3], z));
    assert(components_read(
        parse,
        all,
        Ok::<u64, ParseFloatError>(x),
        Ok::<u64, ParseFloatError>(y),
        z,
    ));
    let z = match z {
        Ok(z) => z,
        Err(e) => {
            return Err(ReadError::from(e));
        },
    };
    part.position = RawVector { x, y, z };
    Ok(part)
}

/// One more name numbers the names as the system does.
proof fn lemma_numbered_one_more(atoms: Seq<(Seq<char>, RawVector)>, next: (Seq<char>, RawVector))
    ensures
        numbered(names_of(atoms.push(next))) == names_with(numbered(names_of(atoms)), next.0),
{
    let longer = names_of(atoms.push(next));
    assert(longer.drop_last() =~= names_of(atoms));
    assert(longer.last() == next.0);
}

impl Universe {
    /// The system that the text `content`, which has the XYZ format,
    /// describes. `parse` reads a component of a position and returns its
    /// bits. A text without any line describes no system.
    pub fn from_xyz<P: Fn(&str) -> Result<u64, ParseFloatError>>(content: &str, parse: &P) -> (found:
        Result<Universe, ReadError>)
        requires
            lines_of(content@).len() > 0,
            forall|text: &str| call_requires(*parse, (text,)),
        ensures
            xyz_read(parse, content@, found),
    {
        let lines = lines(content);
        assert(lines@[0]@ == lines_of(content@)[0]);
        let natoms = match count(lines[0]) {
            Ok(natoms) => natoms,
            Err(e) => {
                return Err(ReadError::from(e));
            },
        };
        let length = lines.len();
        if natoms > usize::MAX - 2 || length != natoms + 2 {
            return Err(ReadError::XYZFormatError { err: "Bad atom number in file." });
        }
        let ghost all = lines_of(content@);
        let mut universe = Universe::new();
        let ghost mut atoms: Seq<(Seq<char>, RawVector)> = Seq::empty();
        assert(universe.spec_kinds() =~= numbered(names_of(atoms)));
        let mut n: usize = 2;
        while n < lines.len()
            invariant
                2 <= n <= lines@.len(),
                all == lines_of(content@),
                count_of(all[0]) == Some(natoms),
                all.len() == natoms + 2,
                lines@.len() == all.len(),
                forall|i: int| 0 <= i < lines@.len() ==> (#[trigger] lines@[i])@ == all[i],
                forall|text: &str| call_requires(*parse, (text,)),
                atoms.len() + 2 == n,
                atoms_read(parse, all.subrange(0, n as int), atoms),
                holds_atoms(universe, atoms),
            decreases lines@.len() - n,
        {
            let ghost before = universe;
            assert(lines@[n as int]@ == all[n as int]);
            let part = match atom(lines[n], parse) {
                Ok(part) => part,
                Err(error) => {
                    assert(atoms_read(parse, all.subrange(0, atoms.len() + 2 as int), atoms));
                    return Err(error);
                },
            };
            universe.add_particle(part);
            proof {
                let next = (part.name@, part.position);
                let longer = atoms.push(next);
                lemma_numbered_one_more(atoms, next);
                assert(atoms_read(parse, all.subrange(0, n + 1), longer)) by {
                    assert forall|i: int| 0 <= i < longer.len() implies atom_read(
                        parse,
                        all.subrange(0, n + 1)[i + 2],
                        Ok::<(Seq<char>, RawVector), ReadError>(#[trigger] longer[i]),
                    ) by {
                        if i < atoms.len() {
                            assert(longer[i] == atoms[i]);
                            assert(all.subrange(0, n as int)[i + 2] == all[i + 2]);
                        }
                    }
                }
                assert forall|i: int| 0 <= i < longer.len() implies holds_atom(
                    #[trigger] universe.spec_particles()[i],
                    longer,
                    i,
                ) by {
                    assert(longer.subrange(0, i) =~= atoms.subrange(0, i));
                    if i < atoms.len() {
                        assert(universe.spec_particles()[i] == before.spec_particles()[i]);
                        assert(holds_atom(before.spec_particles()[i], atoms, i));
                    } else {
                        assert(atoms.subrange(0, i) =~= atoms);
                    }
                }
                atoms = longer;
            }
            n = n + 1;
        }
        assert(all.subrange(0, n as int) =~= all);
        Ok(universe)
    }

    /// The system that the text `content`, which has the XYZ format,
    /// describes, where the text has a line at all.
    pub fn read_xyz<P: Fn(&str) -> Result<u64, ParseFloatError>>(content: &str, parse: &P) -> (found:
        Option<Result<Universe, ReadError>>)
        requires
            forall|text: &str| call_requires(*parse, (text,)),
        ensures
            found is Some == (lines_of(content@).len() > 0),
            found is Some ==> xyz_read(parse, content@, found->0),
    {
        if lines(content).len() > 0 {
            Some(Universe::from_xyz(content, parse))
        } else {
            None
        }
    }
}

} // verus!
