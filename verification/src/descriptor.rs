use vstd::prelude::*;

verus! {

/// How one optional boolean field of the untyped input arrived: absent,
/// a boolean, or some value of another shape (carried as its raw text).
pub enum RawFlag {
    Absent,
    Flag(bool),
    WrongShape,
}

/// How one optional structured field arrived: absent, a value of the
/// documented shape (carried as its raw text), or a value of another
/// shape.
pub enum RawDoc {
    Absent,
    Value(Vec<u8>),
    WrongShape,
}

/// The untyped input value, split by key into plain values. Each opaque
/// field (solver-defined shape) is carried as its raw serialized text;
/// the fields whose outer shape this layer documents — a sequence for the
/// layout, objects for the configurations — carry that shape judgment.
pub struct RawInput {
    pub is_object: bool,
    pub initializer: Option<Vec<u8>>,
    pub syndrome_pattern: Option<Vec<u8>>,
    pub positions: RawDoc,
    pub solver_config: RawDoc,
    pub html_override_config: RawDoc,
    pub with_json: RawFlag,
    pub with_html: RawFlag,
}

/// A structured decoding error naming the offending field.
#[derive(Debug, PartialEq, Eq, Structural, Clone, Copy)]
pub enum DecodeError {
    NotAnObject,
    MissingInitializer,
    MissingSyndromePattern,
    WithJsonNotBool,
    WithHtmlNotBool,
    PositionsNotASequence,
    SolverConfigNotAnObject,
    HtmlOverrideConfigNotAnObject,
}

impl DecodeError {
    /// The offending field path, as text a caller can act on.
    pub fn field_path(&self) -> (r: &'static str)
        ensures
            *self is NotAnObject ==> r@ == "(input)"@,
            *self is MissingInitializer ==> r@ == "initializer"@,
            *self is MissingSyndromePattern ==> r@ == "syndrome_pattern"@,
            *self is WithJsonNotBool ==> r@ == "with_json"@,
            *self is WithHtmlNotBool ==> r@ == "with_html"@,
            *self is PositionsNotASequence ==> r@ == "positions"@,
            *self is SolverConfigNotAnObject ==> r@ == "solver_config"@,
            *self is HtmlOverrideConfigNotAnObject ==> r@ == "html_override_config"@,
    {
        match self {
            DecodeError::NotAnObject => "(input)",
            DecodeError::MissingInitializer => "initializer",
            DecodeError::MissingSyndromePattern => "syndrome_pattern",
            DecodeError::WithJsonNotBool => "with_json",
            DecodeError::WithHtmlNotBool => "with_html",
            DecodeError::PositionsNotASequence => "positions",
            DecodeError::SolverConfigNotAnObject => "solver_config",
            DecodeError::HtmlOverrideConfigNotAnObject => "html_override_config",
        }
    }
}

/// A fully decoded problem: mandatory fields present, defaults applied.
#[derive(Debug)]
pub struct ProblemDescriptor {
    pub initializer: Vec<u8>,
    pub syndrome_pattern: Vec<u8>,
    pub positions: Vec<u8>,
    pub solver_config: Vec<u8>,
    pub with_json: bool,
    pub with_html: bool,
    pub html_override_config: Vec<u8>,
}

/// Default text for an absent layout: the empty sequence.
pub open spec fn spec_default_positions() -> Seq<u8> {
    seq![91u8, 93]
}

/// Default text for an absent configuration: the empty object.
pub open spec fn spec_default_config() -> Seq<u8> {
    seq![123u8, 125]
}

/// The boolean a flag field decodes to: absent means false.
pub open spec fn spec_flag_value(f: RawFlag) -> bool {
    f matches RawFlag::Flag(true)
}

/// Whether the raw input decodes at all.
pub open spec fn spec_decodes(raw: RawInput) -> bool {
    &&& raw.is_object
    &&& raw.initializer is Some
    &&& raw.syndrome_pattern is Some
    &&& !(raw.with_json is WrongShape)
    &&& !(raw.with_html is WrongShape)
    &&& !(raw.positions is WrongShape)
    &&& !(raw.solver_config is WrongShape)
    &&& !(raw.html_override_config is WrongShape)
}

fn default_positions() -> (r: Vec<u8>)
    ensures
        r@ == spec_default_positions(),
{
    let mut v: Vec<u8> = Vec::new();
    v.push(91);
    v.push(93);
    assert(v@ =~= spec_default_positions());
    v
}

fn default_config() -> (r: Vec<u8>)
    ensures
        r@ == spec_default_config(),
{
    let mut v: Vec<u8> = Vec::new();
    v.push(123);
    v.push(125);
    assert(v@ =~= spec_default_config());
    v
}

fn flag_value(f: &RawFlag) -> (r: bool)
    requires
        !(f is WrongShape),
    ensures
        r == spec_flag_value(*f),
{
    match f {
        RawFlag::Flag(b) => *b,
        _ => false,
    }
}

impl RawInput {
    /// Decode the split untyped input into a problem descriptor, reporting
    /// the first offending field, and applying the documented defaults:
    /// empty layout, empty configuration objects, both flags false.
    pub fn decode(self) -> (r: Result<ProblemDescriptor, DecodeError>)
        ensures
            r is Ok <==> spec_decodes(self),
            !self.is_object <==> r == Err::<ProblemDescriptor, DecodeError>(
                DecodeError::NotAnObject,
            ),
            self.is_object && self.initializer is None <==> r
                == Err::<ProblemDescriptor, DecodeError>(DecodeError::MissingInitializer),
            self.is_object && self.initializer is Some && self.syndrome_pattern is None <==> r
                == Err::<ProblemDescriptor, DecodeError>(DecodeError::MissingSyndromePattern),
            self.is_object && self.initializer is Some && self.syndrome_pattern is Some
                && self.with_json is WrongShape <==> r == Err::<ProblemDescriptor, DecodeError>(
                DecodeError::WithJsonNotBool,
            ),
            self.is_object && self.initializer is Some && self.syndrome_pattern is Some
                && !(self.with_json is WrongShape) && self.with_html is WrongShape <==> r
                == Err::<ProblemDescriptor, DecodeError>(DecodeError::WithHtmlNotBool),
            self.is_object && self.initializer is Some && self.syndrome_pattern is Some
                && !(self.with_json is WrongShape) && !(self.with_html is WrongShape)
                && self.positions is WrongShape <==> r == Err::<ProblemDescriptor, DecodeError>(
                DecodeError::PositionsNotASequence,
            ),
            self.is_object && self.initializer is Some && self.syndrome_pattern is Some
                && !(self.with_json is WrongShape) && !(self.with_html is WrongShape) && !(
            self.positions is WrongShape) && self.solver_config is WrongShape <==> r
                == Err::<ProblemDescriptor, DecodeError>(DecodeError::SolverConfigNotAnObject),
            self.is_object && self.initializer is Some && self.syndrome_pattern is Some
                && !(self.with_json is WrongShape) && !(self.with_html is WrongShape) && !(
            self.positions is WrongShape) && !(self.solver_config is WrongShape)
                && self.html_override_config is WrongShape <==> r
                == Err::<ProblemDescriptor, DecodeError>(
                DecodeError::HtmlOverrideConfigNotAnObject,
            ),
            r matches Ok(d) ==> {
                &&& d.initializer@ == self.initializer->0@
                &&& d.syndrome_pattern@ == self.syndrome_pattern->0@
                &&& d.positions@ == (if self.positions is Value {
                    self.positions->0@
                } else {
                    spec_default_positions()
                })
                &&& d.solver_config@ == (if self.solver_config is Value {
                    self.solver_config->0@
                } else {
                    spec_default_config()
                })
                &&& d.html_override_config@ == (if self.html_override_config is Value {
                    self.html_override_config->0@
                } else {
                    spec_default_config()
                })
                &&& d.with_json == spec_flag_value(self.with_json)
                &&& d.with_html == spec_flag_value(self.with_html)
            },
    {
        if !self.is_object {
            return Err(DecodeError::NotAnObject);
        }
        let initializer = match self.initializer {
            Some(v) => v,
            None => {
                return Err(DecodeError::MissingInitializer);
            },
        };
        let syndrome_pattern = match self.syndrome_pattern {
            Some(v) => v,
            None => {
                return Err(DecodeError::MissingSyndromePattern);
            },
        };
        if matches!(self.with_json, RawFlag::WrongShape) {
            return Err(DecodeError::WithJsonNotBool);
        }
        if matches!(self.with_html, RawFlag::WrongShape) {
            return Err(DecodeError::WithHtmlNotBool);
        }
        if matches!(self.positions, RawDoc::WrongShape) {
            return Err(DecodeError::PositionsNotASequence);
        }
        if matches!(self.solver_config, RawDoc::WrongShape) {
            return Err(DecodeError::SolverConfigNotAnObject);
        }
        if matches!(self.html_override_config, RawDoc::WrongShape) {
            return Err(DecodeError::HtmlOverrideConfigNotAnObject);
        }
        let with_json = flag_value(&self.with_json);
        let with_html = flag_value(&self.with_html);
        let positions = match self.positions {
            RawDoc::Value(v) => v,
            _ => default_positions(),
        };
        let solver_config = match self.solver_config {
            RawDoc::Value(v) => v,
            _ => default_config(),
        };
        let html_override_config = match self.html_override_config {
            RawDoc::Value(v) => v,
            _ => default_config(),
        };
        Ok(ProblemDescriptor {
            initializer,
            syndrome_pattern,
            positions,
            solver_config,
            with_json,
            with_html,
            html_override_config,
        })
    }
}

} // verus!
