//! The molecular dynamics propagator, as an input file describes it.
//!
//! Reading gives a description: which integrator, which thermostat and which
//! controls the propagator has, with their parameters. `R` is the type of
//! real numbers. Quantities with a unit are strings in the input; `units`
//! turns such a string into a number. Plain numbers are read by
//! `from_integer` and `as_float`, as `extract::number` takes them. The first
//! thing that is wrong, in the order in which the input is read, is the error
//! that comes back.

use vstd::prelude::*;
use vstd::string::*;
use toml::{Table, Value};
use crate::extract::{
    as_array, as_str, as_table, entries, entry, has_entry, items_in, number, number_found,
    str_outcome, table_in, text_in, typ, typ_outcome, uint, uint_outcome, Error,
};

verus! {

/// Takes the motion of the centre of mass out of the system.
#[derive(Clone, Copy, Debug, PartialEq, Eq, Structural)]
pub struct RemoveTranslation {}

/// Takes the rotation of the system as a whole out of it.
#[derive(Clone, Copy, Debug, PartialEq, Eq, Structural)]
pub struct RemoveRotation {}

/// Wrap all the particles of the system into the unit cell.
#[derive(Clone, Copy, Debug, PartialEq, Eq, Structural)]
pub struct Rewrap {}

impl RemoveTranslation {
    /// The control that takes out the motion of the centre of mass.
    pub fn new() -> (control: RemoveTranslation)
        ensures
            control == (RemoveTranslation {  }),
    {
        RemoveTranslation {  }
    }
}

impl RemoveRotation {
    /// The control that takes out the rotation as a whole.
    pub fn new() -> (control: RemoveRotation)
        ensures
            control == (RemoveRotation {  }),
    {
        RemoveRotation {  }
    }
}

impl Rewrap {
    /// The control that wraps the particles into the unit cell.
    pub fn new() -> (control: Rewrap)
        ensures
            control == (Rewrap {  }),
    {
        Rewrap {  }
    }
}

/// Something that is to be done on one step out of `every`.
#[derive(Debug, PartialEq, Eq, Structural)]
pub struct Alternator<T> {
    /// The number of steps from one run to the next.
    pub every: u64,
    /// What is to be done.
    pub inner: T,
}

impl<T> Alternator<T> {
    /// `inner`, to be done on one step out of `every`.
    pub fn new(every: u64, inner: T) -> (alternator: Self)
        ensures
            alternator.every == every,
            alternator.inner == inner,
    {
        Alternator { every, inner }
    }
}

/// A control of a molecular dynamics propagator.
#[derive(Debug, PartialEq, Eq, Structural)]
pub enum Control {
    RemoveTranslation(Alternator<RemoveTranslation>),
    RemoveRotation(Alternator<RemoveRotation>),
    Rewrap(Alternator<Rewrap>),
}

/// An integrator of a molecular dynamics propagator, with its parameters.
pub enum Integrator<R> {
    BerendsenBarostat { timestep: R, pressure: R, tau: R },
    AnisoBerendsenBarostat { timestep: R, pressure: R, tau: R },
    Verlet { timestep: R },
    VelocityVerlet { timestep: R },
    LeapFrog { timestep: R },
}

/// A thermostat of a molecular dynamics propagator, with its parameters.
pub enum Thermostat<R> {
    Berendsen { temperature: R, tau: R },
    Rescale { temperature: R, tolerance: Option<R> },
}

/// A molecular dynamics propagator.
pub struct MolecularDynamics<R> {
    /// The timestep of the simulation.
    pub timestep: R,
    /// The integrator that the input names, if it names one.
    pub integrator: Option<Integrator<R>>,
    /// The thermostat that the input names, if it names one.
    pub thermostat: Option<Thermostat<R>>,
    /// The controls that the input names, in order.
    pub controls: Vec<Control>,
}

/// An outcome with the message of its error in place of the error.
pub open spec fn told<T>(outcome: Result<T, Error>) -> Result<T, Seq<char>> {
    match outcome {
        Ok(value) => Ok(value),
        Err(error) => Err(error.message@),
    }
}

/// Whether `found` is what `units` makes of the string `text`.
pub open spec fn converted<R, U: Fn(&str) -> Result<R, Error>>(
    units: &U,
    text: Seq<char>,
    found: Result<R, Seq<char>>,
) -> bool {
    exists|given: &str, outcome: Result<R, Error>|
        given@ == text && #[trigger] call_ensures(*units, (given,), outcome) && found == told(
            outcome,
        )
}

/// Whether `found` is the quantity under `key`: the string there, as `units`
/// converts it.
pub open spec fn quantity_found<R, U: Fn(&str) -> Result<R, Error>>(
    key: Seq<char>,
    config: Table,
    context: Seq<char>,
    units: &U,
    found: Result<R, Seq<char>>,
) -> bool {
    match str_outcome(key, config, context) {
        Ok(text) => converted(units, text, found),
        Err(message) => found == Err::<R, Seq<char>>(message),
    }
}

/// The quantity under `key`.
pub fn quantity<R, U: Fn(&str) -> Result<R, Error>>(
    key: &str,
    config: &Table,
    context: &str,
    units: &U,
) -> (found: Result<R, Error>)
    requires
        forall|text: &str| call_requires(*units, (text,)),
    ensures
        quantity_found(key@, *config, context@, units, told(found)),
{
    match crate::extract::str(key, config, context) {
        Ok(text) => {
            let found = units(text);
            assert(converted(units, text@, told(found)));
            found
        },
        Err(error) => Err(error),
    }
}

/// Whether `text` is `name`.
fn named(text: &str, name: &str) -> (same: bool)
    ensures
        same == (text@ == name@),
{
    text.to_owned() == name.to_owned()
}

/// The message for a name that is none of the known ones.
pub open spec fn unknown(what: Seq<char>, name: Seq<char>) -> Seq<char> {
    "Unknown "@ + what + " '"@ + name + "'"@
}

/// The error for a name that is none of the known ones.
fn error_unknown(what: &str, name: &str) -> (error: Error)
    ensures
        error.message@ == unknown(what@, name@),
{
    let mut message = String::from_str("Unknown ");
    message.append(what);
    message.append(" '");
    message.append(name);
    message.append("'");
    Error { message }
}

/// The error with the message `text`.
fn error_saying(text: &str) -> (error: Error)
    ensures
        error.message@ == text@,
{
    Error { message: String::from_str(text) }
}

/// After how many steps a control runs again: what stands under `every`,
/// and 1 where nothing does.
pub open spec fn every_outcome(config: Table, context: Seq<char>) -> Result<u64, Seq<char>> {
    if entries(config).contains_key("every"@) {
        uint_outcome("every"@, config, context)
    } else {
        Ok(1)
    }
}

/// After how many steps a control runs again.
fn every(config: &Table, context: &str) -> (found: Result<u64, Error>)
    ensures
        told(found) == every_outcome(*config, context@),
{
    if has_entry(config, "every") {
        uint("every", config, context)
    } else {
        Ok(1)
    }
}

impl Alternator<RemoveTranslation> {
    /// The control that the table `config` describes.
    pub fn from_toml(config: &Table) -> (found: Result<Self, Error>)
        ensures
            match found {
                Ok(control) => control.inner == (RemoveTranslation {  }) && every_outcome(
                    *config,
                    "RemoveTranslation control"@,
                ) == Ok::<u64, Seq<char>>(control.every),
                Err(error) => every_outcome(*config, "RemoveTranslation control"@) == Err::<
                    u64,
                    Seq<char>,
                >(error.message@),
            },
    {
        match every(config, "RemoveTranslation control") {
            Ok(every) => Ok(Alternator::new(every, RemoveTranslation::new())),
            Err(error) => Err(error),
        }
    }
}

impl Alternator<RemoveRotation> {
    /// The control that the table `config` describes.
    pub fn from_toml(config: &Table) -> (found: Result<Self, Error>)
        ensures
            match found {
                Ok(control) => control.inner == (RemoveRotation {  }) && every_outcome(
                    *config,
                    "RemoveRotation control"@,
                ) == Ok::<u64, Seq<char>>(control.every),
                Err(error) => every_outcome(*config, "RemoveRotation control"@) == Err::<
                    u64,
                    Seq<char>,
                >(error.message@),
            },
    {
        match every(config, "RemoveRotation control") {
            Ok(every) => Ok(Alternator::new(every, RemoveRotation::new())),
            Err(error) => Err(error),
        }
    }
}

impl Alternator<Rewrap> {
    /// The control that the table `config` describes.
    pub fn from_toml(config: &Table) -> (found: Result<Self, Error>)
        ensures
            match found {
                Ok(control) => control.inner == (Rewrap {  }) && every_outcome(
                    *config,
                    "Rewrap control"@,
                ) == Ok::<u64, Seq<char>>(control.every),
                Err(error) => every_outcome(*config, "Rewrap control"@) == Err::<u64, Seq<char>>(
                    error.message@,
                ),
            },
    {
        match every(config, "Rewrap control") {
            Ok(every) => Ok(Alternator::new(every, Rewrap::new())),
            Err(error) => Err(error),
        }
    }
}

/// The control of the given kind that runs on one step out of `every`.
pub open spec fn control_of(kind: Seq<char>, every: u64) -> Control {
    if kind == "RemoveTranslation"@ {
        Control::RemoveTranslation(Alternator { every, inner: RemoveTranslation {  } })
    } else if kind == "RemoveRotation"@ {
        Control::RemoveRotation(Alternator { every, inner: RemoveRotation {  } })
    } else {
        Control::Rewrap(Alternator { every, inner: Rewrap {  } })
    }
}

/// The context in which the table of a control of the given kind is read.
pub open spec fn control_context(kind: Seq<char>) -> Seq<char> {
    if kind == "RemoveTranslation"@ {
        "RemoveTranslation control"@
    } else if kind == "RemoveRotation"@ {
        "RemoveRotation control"@
    } else {
        "Rewrap control"@
    }
}

/// Whether `kind` names a control.
pub open spec fn is_control(kind: Seq<char>) -> bool {
    kind == "RemoveTranslation"@ || kind == "RemoveRotation"@ || kind == "Rewrap"@
}

/// The message for controls that are not an array of tables.
pub open spec fn controls_message() -> Seq<char> {
    "'controls' must be an array of tables in molecular dynamics"@
}

/// The control that the item `item` of the array of controls describes.
pub open spec fn control_outcome(item: Value) -> Result<Control, Seq<char>> {
    match table_in(item) {
        None => Err(controls_message()),
        Some(config) => match typ_outcome(config, "control"@) {
            Err(message) => Err(message),
            Ok(kind) => if is_control(kind) {
                match every_outcome(config, control_context(kind)) {
                    Ok(every) => Ok(control_of(kind, every)),
                    Err(message) => Err(message),
                }
            } else {
                Err(unknown("control"@, kind))
            },
        },
    }
}

/// The control that the item `item` of the array of controls describes.
fn control(item: &Value) -> (found: Result<Control, Error>)
    ensures
        told(found) == control_outcome(*item),
{
    let config = match as_table(item) {
        Some(config) => config,
        None => {
            return Err(error_saying("'controls' must be an array of tables in molecular dynamics"));
        },
    };
    let kind = match typ(config, "control") {
        Ok(kind) => kind,
        Err(error) => {
            return Err(error);
        },
    };
    if named(kind, "RemoveTranslation") {
        match Alternator::<RemoveTranslation>::from_toml(config) {
            Ok(control) => Ok(Control::RemoveTranslation(control)),
            Err(error) => Err(error),
        }
    } else if named(kind, "RemoveRotation") {
        match Alternator::<RemoveRotation>::from_toml(config) {
            Ok(control) => Ok(Control::RemoveRotation(control)),
            Err(error) => Err(error),
        }
    } else if named(kind, "Rewrap") {
        match Alternator::<Rewrap>::from_toml(config) {
            Ok(control) => Ok(Control::Rewrap(control)),
            Err(error) => Err(error),
        }
    } else {
        Err(error_unknown("control", kind))
    }
}

/// The controls that the items describe, where each of them describes one,
/// and otherwise the message for the first that does not.
pub open spec fn controls_of(items: Seq<Value>) -> Result<Seq<Control>, Seq<char>>
    decreases items.len(),
{
    if items.len() == 0 {
        Ok(Seq::empty())
    } else {
        match controls_of(items.drop_last()) {
            Err(message) => Err(message),
            Ok(before) => match control_outcome(items.last()) {
                Ok(control) => Ok(before.push(control)),
                Err(message) => Err(message),
            },
        }
    }
}

/// The controls of the propagator that the table `config` describes: none
/// where the table has no key `controls`.
pub open spec fn controls_outcome(config: Table) -> Result<Seq<Control>, Seq<char>> {
    if !entries(config).contains_key("controls"@) {
        Ok(Seq::empty())
    } else {
        match items_in(entries(config)["controls"@]) {
            None => Err(controls_message()),
            Some(items) => controls_of(items),
        }
    }
}

/// The controls of the propagator that the table `config` describes.
fn controls(config: &Table) -> (found: Result<Vec<Control>, Error>)
    ensures
        match found {
            Ok(controls) => controls_outcome(*config) == Ok::<Seq<Control>, Seq<char>>(controls@),
            Err(error) => controls_outcome(*config) == Err::<Seq<Control>, Seq<char>>(
                error.message@,
            ),
        },
{
    let mut controls: Vec<Control> = Vec::new();
    let items = match entry(config, "controls") {
        None => {
            return Ok(controls);
        },
        Some(value) => match as_array(value) {
            Some(items) => items,
            None => {
                return Err(
                    error_saying("'controls' must be an array of tables in molecular dynamics"),
                );
            },
        },
    };
    let mut n: usize = 0;
    while n < items.len()
        invariant
            n <= items@.len(),
            controls_outcome(*config) == controls_of(items@),
            controls_of(items@.subrange(0, n as int)) == Ok::<Seq<Control>, Seq<char>>(controls@),
        decreases items@.len() - n,
    {
        let ghost taken = items@.subrange(0, n + 1);
        proof {
            assert(taken.drop_last() =~= items@.subrange(0, n as int));
            assert(taken.last() == items@[n as int]);
        }
        match control(&items[n]) {
            Ok(control) => {
                let ghost before = controls@;
                controls.push(control);
                proof {
                    assert(controls_of(taken.drop_last()) == Ok::<Seq<Control>, Seq<char>>(before));
                    assert(controls_of(taken) == Ok::<Seq<Control>, Seq<char>>(controls@));
                }
            },
            Err(error) => {
                proof {
                    assert(controls_of(taken.drop_last()) == Ok::<Seq<Control>, Seq<char>>(
                        controls@,
                    ));
                    assert(controls_of(taken) == Err::<Seq<Control>, Seq<char>>(error.message@));
                    lemma_controls_fail(items@, n as int);
                }
                return Err(error);
            },
        }
        n = n + 1;
    }
    assert(items@.subrange(0, n as int) =~= items@);
    Ok(controls)
}

/// Once some items have failed to describe controls, more items fail with
/// the same message.
pub proof fn lemma_controls_fail(items: Seq<Value>, n: int)
    requires
        0 <= n < items.len(),
        controls_of(items.subrange(0, n + 1)) is Err,
    ensures
        controls_of(items) == controls_of(items.subrange(0, n + 1)),
    decreases items.len(),
{
    if n + 1 < items.len() {
        let shorter = items.drop_last();
        assert(shorter.subrange(0, n + 1) =~= items.subrange(0, n + 1));
        lemma_controls_fail(shorter, n);
    } else {
        assert(items.subrange(0, n + 1) =~= items);
    }
}

/// Whether `found` is the barostat that the table `config` describes: with
/// the pressure that stands under `pressure` and the time under `timestep`.
pub open spec fn barostat_found<
    R,
    U: Fn(&str) -> Result<R, Error>,
    I: Fn(i64) -> R,
    F: Fn(&Value) -> Option<R>,
>(
    config: Table,
    context: Seq<char>,
    units: &U,
    from_integer: &I,
    as_float: &F,
    found: Result<(R, R), Seq<char>>,
) -> bool {
    exists|pressure: Result<R, Seq<char>>|
        #[trigger] quantity_found("pressure"@, config, context, units, pressure) && match pressure {
            Err(message) => found == Err::<(R, R), Seq<char>>(message),
            Ok(p) => exists|tau: Result<R, Seq<char>>|
                #[trigger] number_found("timestep"@, config, context, from_integer, as_float, tau)
                    && match tau {
                    Err(message) => found == Err::<(R, R), Seq<char>>(message),
                    Ok(t) => found == Ok::<(R, R), Seq<char>>((p, t)),
                },
        }
}

/// The pressure and the time of the barostat that the table `config`
/// describes.
fn barostat<R, U: Fn(&str) -> Result<R, Error>, I: Fn(i64) -> R, F: Fn(&Value) -> Option<R>>(
    config: &Table,
    context: &str,
    units: &U,
    from_integer: &I,
    as_float: &F,
) -> (found: Result<(R, R), Error>)
    requires
        forall|text: &str| call_requires(*units, (text,)),
        forall|v: i64| call_requires(*from_integer, (v,)),
        forall|value: &Value| call_requires(*as_float, (value,)),
    ensures
        barostat_found(*config, context@, units, from_integer, as_float, told(found)),
{
    let pressure = quantity("pressure", config, context, units);
    let ghost first = told(pressure);
    let pressure = match pressure {
        Ok(pressure) => pressure,
        Err(error) => {
            assert(quantity_found("pressure"@, *config, context@, units, first));
            return Err(error);
        },
    };
    let tau = number("timestep", config, context, from_integer, as_float);
    let ghost second = told(tau);
    assert(number_found("timestep"@, *config, context@, from_integer, as_float, second));
    assert(quantity_found("pressure"@, *config, context@, units, first));
    match tau {
        Ok(tau) => Ok((pressure, tau)),
        Err(error) => Err(error),
    }
}

/// Whether `found` is the integrator of kind `kind` that the table `config`
/// describes, for the timestep `timestep`.
pub open spec fn integrator_of_kind<
    R,
    U: Fn(&str) -> Result<R, Error>,
    I: Fn(i64) -> R,
    F: Fn(&Value) -> Option<R>,
>(
    kind: Seq<char>,
    config: Table,
    timestep: R,
    units: &U,
    from_integer: &I,
    as_float: &F,
    found: Result<Integrator<R>, Seq<char>>,
) -> bool {
    if kind == "BerendsenBarostat"@ {
        exists|read: Result<(R, R), Seq<char>>|
            #[trigger] barostat_found(
                config,
                "Berendsen barostat"@,
                units,
                from_integer,
                as_float,
                read,
            ) && match read {
                Ok(pair) => found == Ok::<Integrator<R>, Seq<char>>(
                    Integrator::BerendsenBarostat { timestep, pressure: pair.0, tau: pair.1 },
                ),
                Err(message) => found == Err::<Integrator<R>, Seq<char>>(message),
            }
    } else if kind == "AnisoBerendsenBarostat"@ {
        exists|read: Result<(R, R), Seq<char>>|
            #[trigger] barostat_found(
                config,
                "anisotropic Berendsen barostat"@,
                units,
                from_integer,
                as_float,
                read,
            ) && match read {
                Ok(pair) => found == Ok::<Integrator<R>, Seq<char>>(
                    Integrator::AnisoBerendsenBarostat { timestep, pressure: pair.0, tau: pair.1 },
                ),
                Err(message) => found == Err::<Integrator<R>, Seq<char>>(message),
            }
    } else if kind == "Verlet"@ {
        found == Ok::<Integrator<R>, Seq<char>>(Integrator::Verlet { timestep })
    } else if kind == "VelocityVerlet"@ {
        found == Ok::<Integrator<R>, Seq<char>>(Integrator::VelocityVerlet { timestep })
    } else if kind == "LeapFrog"@ {
        found == Ok::<Integrator<R>, Seq<char>>(Integrator::LeapFrog { timestep })
    } else {
        found == Err::<Integrator<R>, Seq<char>>(unknown("integrator"@, kind))
    }
}

/// Whether `found` is the integrator that the value `value`, which stands
/// under `integrator`, describes, for the timestep `timestep`.
pub open spec fn integrator_found<
    R,
    U: Fn(&str) -> Result<R, Error>,
    I: Fn(i64) -> R,
    F: Fn(&Value) -> Option<R>,
>(
    value: Value,
    timestep: R,
    units: &U,
    from_integer: &I,
    as_float: &F,
    found: Result<Integrator<R>, Seq<char>>,
) -> bool {
    match table_in(value) {
        None => found == Err::<Integrator<R>, Seq<char>>(
            "'integrator' must be a table in molecular dynamics"@,
        ),
        Some(config) => match typ_outcome(config, "integrator"@) {
            Err(message) => found == Err::<Integrator<R>, Seq<char>>(message),
            Ok(kind) => integrator_of_kind(
                kind,
                config,
                timestep,
                units,
                from_integer,
                as_float,
                found,
            ),
        },
    }
}

/// The integrator that the value `value`, which stands under `integrator`,
/// describes, for the timestep `timestep`.
fn integrator<
    R: Copy,
    U: Fn(&str) -> Result<R, Error>,
    I: Fn(i64) -> R,
    F: Fn(&Value) -> Option<R>,
>(value: &Value, timestep: R, units: &U, from_integer: &I, as_float: &F) -> (found: Result<
    Integrator<R>,
    Error,
>)
    requires
        forall|text: &str| call_requires(*units, (text,)),
        forall|v: i64| call_requires(*from_integer, (v,)),
        forall|value: &Value| call_requires(*as_float, (value,)),
    ensures
        integrator_found(*value, timestep, units, from_integer, as_float, told(found)),
{
    let config = match as_table(value) {
        Some(config) => config,
        None => {
            return Err(error_saying("'integrator' must be a table in molecular dynamics"));
        },
    };
    let kind = match typ(config, "integrator") {
        Ok(kind) => kind,
        Err(error) => {
            return Err(error);
        },
    };
    if named(kind, "BerendsenBarostat") {
        let read = barostat(config, "Berendsen barostat", units, from_integer, as_float);
        assert(barostat_found(
            *config,
            "Berendsen barostat"@,
            units,
            from_integer,
            as_float,
            told(read),
        ));
        match read {
            Ok(pair) => Ok(
                Integrator::BerendsenBarostat { timestep, pressure: pair.0, tau: pair.1 },
            ),
            Err(error) => Err(error),
        }
    } else if named(kind, "AnisoBerendsenBarostat") {
        let read = barostat(config, "anisotropic Berendsen barostat", units, from_integer, as_float);
        assert(barostat_found(
            *config,
            "anisotropic Berendsen barostat"@,
            units,
            from_integer,
            as_float,
            told(read),
        ));
        match read {
            Ok(pair) => Ok(
                Integrator::AnisoBerendsenBarostat { timestep, pressure: pair.0, tau: pair.1 },
            ),
            Err(error) => Err(error),
        }
    } else if named(kind, "Verlet") {
        Ok(Integrator::Verlet { timestep })
    } else if named(kind, "VelocityVerlet") {
        Ok(Integrator::VelocityVerlet { timestep })
    } else if named(kind, "LeapFrog") {
        Ok(Integrator::LeapFrog { timestep })
    } else {
        Err(error_unknown("integrator", kind))
    }
}

/// Whether `found` is the tolerance of the rescaling thermostat that the
/// table `config` describes: none where the table has no key `tolerance`.
pub open spec fn tolerance_found<R, U: Fn(&str) -> Result<R, Error>>(
    config: Table,
    units: &U,
    found: Result<Option<R>, Seq<char>>,
) -> bool {
    if !entries(config).contains_key("tolerance"@) {
        found == Ok::<Option<R>, Seq<char>>(None)
    } else {
        match text_in(entries(config)["tolerance"@]) {
            None => found == Err::<Option<R>, Seq<char>>(
                "'tolerance' must be a string rescale thermostat"@,
            ),
            Some(text) => exists|read: Result<R, Seq<char>>|
                #[trigger] converted(units, text, read) && match read {
                    Ok(tolerance) => found == Ok::<Option<R>, Seq<char>>(Some(tolerance)),
                    Err(message) => found == Err::<Option<R>, Seq<char>>(message),
                },
        }
    }
}

/// The tolerance of the rescaling thermostat that the table `config`
/// describes.
fn tolerance<R, U: Fn(&str) -> Result<R, Error>>(config: &Table, units: &U) -> (found: Result<
    Option<R>,
    Error,
>)
    requires
        forall|text: &str| call_requires(*units, (text,)),
    ensures
        tolerance_found(*config, units, told(found)),
{
    match entry(config, "tolerance") {
        None => Ok(None),
        Some(value) => match as_str(value) {
            None => Err(error_saying("'tolerance' must be a string rescale thermostat")),
            Some(text) => {
                let read = units(text);
                assert(converted(units, text@, told(read)));
                match read {
                    Ok(tolerance) => Ok(Some(tolerance)),
                    Err(error) => Err(error),
                }
            },
        },
    }
}

/// Whether `found` is the thermostat of kind `kind` that the table `config`
/// describes.
pub open spec fn thermostat_of_kind<
    R,
    U: Fn(&str) -> Result<R, Error>,
    I: Fn(i64) -> R,
    F: Fn(&Value) -> Option<R>,
>(
    kind: Seq<char>,
    config: Table,
    units: &U,
    from_integer: &I,
    as_float: &F,
    found: Result<Thermostat<R>, Seq<char>>,
) -> bool {
    if kind != "Berendsen"@ && kind != "Rescale"@ {
        found == Err::<Thermostat<R>, Seq<char>>(unknown("thermostat type"@, kind))
    } else {
        exists|temperature: Result<R, Seq<char>>|
            #[trigger] quantity_found(
                "temperature"@,
                config,
                "Berendsen thermostat"@,
                units,
                temperature,
            ) && match temperature {
                Err(message) => found == Err::<Thermostat<R>, Seq<char>>(message),
                Ok(t) => if kind == "Berendsen"@ {
                    exists|tau: Result<R, Seq<char>>|
                        #[trigger] number_found(
                            "timestep"@,
                            config,
                            "Berendsen thermostat"@,
                            from_integer,
                            as_float,
                            tau,
                        ) && match tau {
                            Err(message) => found == Err::<Thermostat<R>, Seq<char>>(message),
                            Ok(tau) => found == Ok::<Thermostat<R>, Seq<char>>(
                                Thermostat::Berendsen { temperature: t, tau },
                            ),
                        }
                } else {
                    exists|read: Result<Option<R>, Seq<char>>|
                        #[trigger] tolerance_found(config, units, read) && match read {
                            Err(message) => found == Err::<Thermostat<R>, Seq<char>>(message),
                            Ok(tolerance) => found == Ok::<Thermostat<R>, Seq<char>>(
                                Thermostat::Rescale { temperature: t, tolerance },
                            ),
                        }
                },
            }
    }
}

/// Whether `found` is the thermostat that the value `value`, which stands
/// under `thermostat`, describes.
pub open spec fn thermostat_found<
    R,
    U: Fn(&str) -> Result<R, Error>,
    I: Fn(i64) -> R,
    F: Fn(&Value) -> Option<R>,
>(
    value: Value,
    units: &U,
    from_integer: &I,
    as_float: &F,
    found: Result<Thermostat<R>, Seq<char>>,
) -> bool {
    match table_in(value) {
        None => found == Err::<Thermostat<R>, Seq<char>>(
            "'thermostat' must be a table in molecular dynamics"@,
        ),
        Some(config) => match typ_outcome(config, "thermostat"@) {
            Err(message) => found == Err::<Thermostat<R>, Seq<char>>(message),
            Ok(kind) => thermostat_of_kind(kind, config, units, from_integer, as_float, found),
        },
    }
}

/// The thermostat that the value `value`, which stands under `thermostat`,
/// describes.
fn thermostat<R, U: Fn(&str) -> Result<R, Error>, I: Fn(i64) -> R, F: Fn(&Value) -> Option<R>>(
    value: &Value,
    units: &U,
    from_integer: &I,
    as_float: &F,
) -> (found: Result<Thermostat<R>, Error>)
    requires
        forall|text: &str| call_requires(*units, (text,)),
        forall|v: i64| call_requires(*from_integer, (v,)),
        forall|value: &Value| call_requires(*as_float, (value,)),
    ensures
        thermostat_found(*value, units, from_integer, as_float, told(found)),
{
    let config = match as_table(value) {
        Some(config) => config,
        None => {
            return Err(error_saying("'thermostat' must be a table in molecular dynamics"));
        },
    };
    let kind = match typ(config, "thermostat") {
        Ok(kind) => kind,
        Err(error) => {
            return Err(error);
        },
    };
    let berendsen = named(kind, "Berendsen");
    if !berendsen && !named(kind, "Rescale") {
        return Err(error_unknown("thermostat type", kind));
    }
    let temperature = quantity("temperature", config, "Berendsen thermostat", units);
    let ghost first = told(temperature);
    assert(quantity_found("temperature"@, *config, "Berendsen thermostat"@, units, first));
    let temperature = match temperature {
        Ok(temperature) => temperature,
        Err(error) => {
            return Err(error);
        },
    };
    if berendsen {
        let tau = number("timestep", config, "Berendsen thermostat", from_integer, as_float);
        assert(number_found(
            "timestep"@,
            *config,
            "Berendsen thermostat"@,
            from_integer,
            as_float,
            told(tau),
        ));
        match tau {
            Ok(tau) => Ok(Thermostat::Berendsen { temperature, tau }),
            Err(error) => Err(error),
        }
    } else {
        let read = tolerance(config, units);
        assert(tolerance_found(*config, units, told(read)));
        match read {
            Ok(tolerance) => Ok(Thermostat::Rescale { temperature, tolerance }),
            Err(error) => Err(error),
        }
    }
}

/// Whether `found` is the integrator of the propagator that the table
/// `config` describes: none where the table has no key `integrator`.
pub open spec fn integrator_part<
    R,
    U: Fn(&str) -> Result<R, Error>,
    I: Fn(i64) -> R,
    F: Fn(&Value) -> Option<R>,
>(
    config: Table,
    timestep: R,
    units: &U,
    from_integer: &I,
    as_float: &F,
    found: Result<Option<Integrator<R>>, Seq<char>>,
) -> bool {
    if !entries(config).contains_key("integrator"@) {
        found == Ok::<Option<Integrator<R>>, Seq<char>>(None)
    } else {
        exists|read: Result<Integrator<R>, Seq<char>>|
            #[trigger] integrator_found(
                entries(config)["integrator"@],
                timestep,
                units,
                from_integer,
                as_float,
                read,
            ) && match read {
                Ok(integrator) => found == Ok::<Option<Integrator<R>>, Seq<char>>(Some(integrator)),
                Err(message) => found == Err::<Option<Integrator<R>>, Seq<char>>(message),
            }
    }
}

/// Whether `found` is the thermostat of the propagator that the table
/// `config` describes: none where the table has no key `thermostat`.
pub open spec fn thermostat_part<
    R,
    U: Fn(&str) -> Result<R, Error>,
    I: Fn(i64) -> R,
    F: Fn(&Value) -> Option<R>,
>(
    config: Table,
    units: &U,
    from_integer: &I,
    as_float: &F,
    found: Result<Option<Thermostat<R>>, Seq<char>>,
) -> bool {
    if !entries(config).contains_key("thermostat"@) {
        found == Ok::<Option<Thermostat<R>>, Seq<char>>(None)
    } else {
        exists|read: Result<Thermostat<R>, Seq<char>>|
            #[trigger] thermostat_found(
                entries(config)["thermostat"@],
                units,
                from_integer,
                as_float,
                read,
            ) && match read {
                Ok(thermostat) => found == Ok::<Option<Thermostat<R>>, Seq<char>>(Some(thermostat)),
                Err(message) => found == Err::<Option<Thermostat<R>>, Seq<char>>(message),
            }
    }
}

/// Whether `found` is what reading the table `config` as a molecular
/// dynamics propagator gives. The timestep is read first, then the
/// integrator, the thermostat and the controls; the first of them that
/// cannot be read gives the error.
pub open spec fn propagator_found<
    R,
    U: Fn(&str) -> Result<R, Error>,
    I: Fn(i64) -> R,
    F: Fn(&Value) -> Option<R>,
>(
    config: Table,
    units: &U,
    from_integer: &I,
    as_float: &F,
    found: Result<(R, Option<Integrator<R>>, Option<Thermostat<R>>, Seq<Control>), Seq<char>>,
) -> bool {
    exists|
        timestep: Result<R, Seq<char>>,
        integrator: Result<Option<Integrator<R>>, Seq<char>>,
        thermostat: Result<Option<Thermostat<R>>, Seq<char>>,
    |
        {
            &&& #[trigger] parts_found(
                config,
                units,
                from_integer,
                as_float,
                timestep,
                integrator,
                thermostat,
            )
            &&& found == assembled(timestep, integrator, thermostat, controls_outcome(config))
        }
}

/// Whether the three parts are what the table `config` gives for the
/// timestep, the integrator and the thermostat. A part that is not reached,
/// because one before it could not be read, may be anything.
pub open spec fn parts_found<
    R,
    U: Fn(&str) -> Result<R, Error>,
    I: Fn(i64) -> R,
    F: Fn(&Value) -> Option<R>,
>(
    config: Table,
    units: &U,
    from_integer: &I,
    as_float: &F,
    timestep: Result<R, Seq<char>>,
    integrator: Result<Option<Integrator<R>>, Seq<char>>,
    thermostat: Result<Option<Thermostat<R>>, Seq<char>>,
) -> bool {
    &&& quantity_found("timestep"@, config, "molecular dynamics propagator"@, units, timestep)
    &&& timestep is Ok ==> integrator_part(
        config,
        timestep->Ok_0,
        units,
        from_integer,
        as_float,
        integrator,
    )
    &&& timestep is Ok && integrator is Ok ==> thermostat_part(
        config,
        units,
        from_integer,
        as_float,
        thermostat,
    )
}

/// The propagator made of the four parts, or the first error among them.
pub open spec fn assembled<R>(
    timestep: Result<R, Seq<char>>,
    integrator: Result<Option<Integrator<R>>, Seq<char>>,
    thermostat: Result<Option<Thermostat<R>>, Seq<char>>,
    controls: Result<Seq<Control>, Seq<char>>,
) -> Result<(R, Option<Integrator<R>>, Option<Thermostat<R>>, Seq<Control>), Seq<char>> {
    match timestep {
        Err(message) => Err(message),
        Ok(timestep) => match integrator {
            Err(message) => Err(message),
            Ok(integrator) => match thermostat {
                Err(message) => Err(message),
                Ok(thermostat) => match controls {
                    Err(message) => Err(message),
                    Ok(controls) => Ok((timestep, integrator, thermostat, controls)),
                },
            },
        },
    }
}

impl<R: Copy> MolecularDynamics<R> {
    /// The parts of the propagator.
    pub open spec fn parts(self) -> (R, Option<Integrator<R>>, Option<Thermostat<R>>, Seq<Control>) {
        (self.timestep, self.integrator, self.thermostat, self.controls@)
    }

    /// The propagator that the table `config` describes.
    pub fn from_toml<U: Fn(&str) -> Result<R, Error>, I: Fn(i64) -> R, F: Fn(&Value) -> Option<R>>(
        config: &Table,
        units: &U,
        from_integer: &I,
        as_float: &F,
    ) -> (found: Result<Self, Error>)
        requires
            forall|text: &str| call_requires(*units, (text,)),
            forall|v: i64| call_requires(*from_integer, (v,)),
            forall|value: &Value| call_requires(*as_float, (value,)),
        ensures
            match found {
                Ok(md) => propagator_found(
                    *config,
                    units,
                    from_integer,
                    as_float,
                    Ok::<
                        (R, Option<Integrator<R>>, Option<Thermostat<R>>, Seq<Control>),
                        Seq<char>,
                    >(md.parts()),
                ),
                Err(error) => propagator_found(
                    *config,
                    units,
                    from_integer,
                    as_float,
                    Err::<
                        (R, Option<Integrator<R>>, Option<Thermostat<R>>, Seq<Control>),
                        Seq<char>,
                    >(error.message@),
                ),
            },
    {
        let ghost nothing = Err::<Option<Integrator<R>>, Seq<char>>(Seq::empty());
        let ghost no_more = Err::<Option<Thermostat<R>>, Seq<char>>(Seq::empty());

        // the timestep of the simulation
        let read = quantity("timestep", config, "molecular dynamics propagator", units);
        let ghost first = told(read);
        let timestep = match read {
            Ok(timestep) => timestep,
            Err(error) => {
                assert(parts_found(*config, units, from_integer, as_float, first, nothing, no_more));
                return Err(error);
            },
        };

        let integrator = match entry(config, "integrator") {
            Some(value) => {
                let read = integrator(value, timestep, units, from_integer, as_float);
                assert(integrator_found(
                    *value,
                    timestep,
                    units,
                    from_integer,
                    as_float,
                    told(read),
                ));
                match read {
                    Ok(integrator) => Some(integrator),
                    Err(error) => {
                        let ghost second = Err::<Option<Integrator<R>>, Seq<char>>(error.message@);
                        assert(parts_found(
                            *config,
                            units,
                            from_integer,
                            as_float,
                            first,
                            second,
                            no_more,
                        ));
                        return Err(error);
                    },
                }
            },
            None => None,
        };
        let ghost second = Ok::<Option<Integrator<R>>, Seq<char>>(integrator);
        assert(integrator_part(*config, timestep, units, from_integer, as_float, second));

        let thermostat = match entry(config, "thermostat") {
            Some(value) => {
                let read = thermostat(value, units, from_integer, as_float);
                assert(thermostat_found(*value, units, from_integer, as_float, told(read)));
                match read {
                    Ok(thermostat) => Some(thermostat),
                    Err(error) => {
                        let ghost third = Err::<Option<Thermostat<R>>, Seq<char>>(error.message@);
                        assert(parts_found(
                            *config,
                            units,
                            from_integer,
                            as_float,
                            first,
                            second,
                            third,
                        ));
                        return Err(error);
                    },
                }
            },
            None => None,
        };
        let ghost third = Ok::<Option<Thermostat<R>>, Seq<char>>(thermostat);
        assert(parts_found(*config, units, from_integer, as_float, first, second, third));

        match controls(config) {
            Ok(controls) => Ok(MolecularDynamics { timestep, integrator, thermostat, controls }),
            Err(error) => Err(error),
        }
    }
}

} // verus!
