//! The tiling notation as mathematics: what a text denotes, and the canonical text
//! of a configuration.
//!
//! ```text
//! configuration   := seed-and-phases "/" transformation ("/" transformation)*
//! seed-and-phases := N ("-" phase)*
//! phase           := N ("," N)*
//! transformation  := ("r" | "m") source
//! source          := "" | N | "(" vertex-spec ")"
//! vertex-spec     := ("v" | "c" | "h") N
//! ```

use crate::geometry::separated::{join, split};
use crate::numerics::decimal::{number_text, parse_number};
use vstd::prelude::*;

verus! {

/// A feature of a reference tile, by its index on that tile.
#[derive(Debug, PartialEq)]
pub enum VertexType {
    /// A corner of the tile.
    Corner(usize),
    /// The centre of the tile.
    Centre(usize),
    /// The midpoint of an edge of the tile.
    Edge(usize),
}

/// The anchor of a transformation.
#[derive(Debug, PartialEq)]
pub enum TransformationSource {
    /// The origin of the plane, with an angle in degrees where one is given.
    Origin(Option<usize>),
    /// A feature of a reference tile.
    Vertex(VertexType),
}

/// A rigid motion that replicates a patch of tiles.
#[derive(Debug, PartialEq)]
pub enum Transformation {
    Rotation(TransformationSource),
    Reflection(TransformationSource),
}

/// What a configuration holds, as mathematical sequences.
pub struct ConfigurationModel {
    /// The number of sides of the first tile.
    pub seed: usize,
    /// The rings of tiles around the seed, each a list of numbers of sides.
    pub phases: Seq<Seq<usize>>,
    /// The transformations, in the order in which they are applied.
    pub transformations: Seq<Transformation>,
}

/// Why a text is not a configuration. Each reason holds the part of the text that it
/// is about.
pub enum ParseFailure {
    /// The whole text: it has no `/`, so no transformation.
    MissingTransformations(Seq<char>),
    /// The seed: it is not a number.
    InvalidSeed(Seq<char>),
    /// A polygon order of a phase: it is not a number.
    InvalidShape(Seq<char>),
    /// A transformation is empty.
    EmptyTransformation,
    /// A transformation: it starts with neither `r` nor `m`.
    UnknownTransformationChar(Seq<char>),
    /// The source of a transformation: nothing is left between its ends.
    EmptyVertexSpecifier(Seq<char>),
    /// A vertex specifier: it starts with none of `v`, `c` and `h`.
    UnknownVertexTypeChar(Seq<char>),
    /// The index of a vertex specifier: it is not a number.
    InvalidVertexIndex(Seq<char>),
}

impl ConfigurationModel {
    /// Whether the configuration can be written and read back: it has a
    /// transformation, and no phase is empty.
    pub open spec fn well_formed(self) -> bool {
        &&& self.transformations.len() >= 1
        &&& forall|i: int| 0 <= i < self.phases.len() ==> (#[trigger] self.phases[i]).len() >= 1
    }
}

/// `text` without its first and its last character; empty where it has fewer than two.
pub open spec fn strip_ends(text: Seq<char>) -> Seq<char> {
    if text.len() >= 2 {
        text.subrange(1, text.len() - 1)
    } else {
        Seq::<char>::empty()
    }
}

/// Whether `c` names a kind of vertex.
pub open spec fn is_vertex_letter(c: char) -> bool {
    c == 'v' || c == 'c' || c == 'h'
}

/// The vertex that a non-empty specifier denotes: a letter, then the index.
pub open spec fn vertex_of(specifier: Seq<char>) -> Result<VertexType, ParseFailure>
    recommends
        specifier.len() >= 1,
{
    let index_text = specifier.drop_first();
    if !is_vertex_letter(specifier[0]) {
        Err(ParseFailure::UnknownVertexTypeChar(specifier))
    } else {
        match parse_number(index_text) {
            None => Err(ParseFailure::InvalidVertexIndex(index_text)),
            Some(index) => Ok(
                if specifier[0] == 'v' {
                    VertexType::Corner(index)
                } else if specifier[0] == 'c' {
                    VertexType::Centre(index)
                } else {
                    VertexType::Edge(index)
                },
            ),
        }
    }
}

/// The source that the text after a transformation's letter denotes.
pub open spec fn source_of(text: Seq<char>) -> Result<TransformationSource, ParseFailure> {
    if text.len() == 0 {
        Ok(TransformationSource::Origin(None))
    } else {
        match parse_number(text) {
            Some(angle) => Ok(TransformationSource::Origin(Some(angle))),
            None => if strip_ends(text).len() == 0 {
                Err(ParseFailure::EmptyVertexSpecifier(text))
            } else {
                match vertex_of(strip_ends(text)) {
                    Ok(vertex) => Ok(TransformationSource::Vertex(vertex)),
                    Err(failure) => Err(failure),
                }
            },
        }
    }
}

/// The transformation that a piece between two `/` denotes. The letter is looked at
/// before the source.
pub open spec fn transformation_of(piece: Seq<char>) -> Result<Transformation, ParseFailure> {
    if piece.len() == 0 {
        Err(ParseFailure::EmptyTransformation)
    } else if piece[0] != 'r' && piece[0] != 'm' {
        Err(ParseFailure::UnknownTransformationChar(piece))
    } else {
        match source_of(piece.drop_first()) {
            Ok(source) => Ok(
                if piece[0] == 'r' {
                    Transformation::Rotation(source)
                } else {
                    Transformation::Reflection(source)
                },
            ),
            Err(failure) => Err(failure),
        }
    }
}

/// The polygon orders that the tokens of one phase denote, or the failure of the
/// first token that is not a number.
pub open spec fn shapes_of(tokens: Seq<Seq<char>>) -> Result<Seq<usize>, ParseFailure>
    decreases tokens.len(),
{
    if tokens.len() == 0 {
        Ok(Seq::<usize>::empty())
    } else {
        match shapes_of(tokens.drop_last()) {
            Err(failure) => Err(failure),
            Ok(shapes) => match parse_number(tokens.last()) {
                None => Err(ParseFailure::InvalidShape(tokens.last())),
                Some(shape) => Ok(shapes.push(shape)),
            },
        }
    }
}

/// The phases that the segments after the seed denote, or the first failure.
pub open spec fn phases_of(segments: Seq<Seq<char>>) -> Result<Seq<Seq<usize>>, ParseFailure>
    decreases segments.len(),
{
    if segments.len() == 0 {
        Ok(Seq::<Seq<usize>>::empty())
    } else {
        match phases_of(segments.drop_last()) {
            Err(failure) => Err(failure),
            Ok(phases) => match shapes_of(split(segments.last(), ',')) {
                Err(failure) => Err(failure),
                Ok(shapes) => Ok(phases.push(shapes)),
            },
        }
    }
}

/// The transformations that the pieces after the first `/` denote, or the first
/// failure.
pub open spec fn transformations_of(pieces: Seq<Seq<char>>) -> Result<
    Seq<Transformation>,
    ParseFailure,
>
    decreases pieces.len(),
{
    if pieces.len() == 0 {
        Ok(Seq::<Transformation>::empty())
    } else {
        match transformations_of(pieces.drop_last()) {
            Err(failure) => Err(failure),
            Ok(transformations) => match transformation_of(pieces.last()) {
                Err(failure) => Err(failure),
                Ok(transformation) => Ok(transformations.push(transformation)),
            },
        }
    }
}

/// The seed and the phases that the text before the first `/` denotes.
pub open spec fn seed_and_phases_of(text: Seq<char>) -> Result<
    (usize, Seq<Seq<usize>>),
    ParseFailure,
> {
    let segments = split(text, '-');
    match parse_number(segments[0]) {
        None => Err(ParseFailure::InvalidSeed(segments[0])),
        Some(seed) => match phases_of(segments.drop_first()) {
            Err(failure) => Err(failure),
            Ok(phases) => Ok((seed, phases)),
        },
    }
}

/// The configuration that `text` denotes, or the first reason why it denotes none:
/// the seed and the phases are read before the transformations, each from left to
/// right.
pub open spec fn configuration_of(text: Seq<char>) -> Result<ConfigurationModel, ParseFailure> {
    let pieces = split(text, '/');
    if pieces.len() < 2 {
        Err(ParseFailure::MissingTransformations(text))
    } else {
        match seed_and_phases_of(pieces[0]) {
            Err(failure) => Err(failure),
            Ok(head) => match transformations_of(pieces.drop_first()) {
                Err(failure) => Err(failure),
                Ok(transformations) => Ok(
                    ConfigurationModel { seed: head.0, phases: head.1, transformations },
                ),
            },
        }
    }
}

/// The letter and the index of a vertex.
pub open spec fn vertex_text(vertex: VertexType) -> Seq<char> {
    match vertex {
        VertexType::Corner(index) => seq!['v'] + number_text(index as nat),
        VertexType::Centre(index) => seq!['c'] + number_text(index as nat),
        VertexType::Edge(index) => seq!['h'] + number_text(index as nat),
    }
}

/// Nothing for the origin, the angle for the origin with an angle, and the vertex in
/// round brackets for a vertex.
pub open spec fn source_text(source: TransformationSource) -> Seq<char> {
    match source {
        TransformationSource::Origin(None) => Seq::<char>::empty(),
        TransformationSource::Origin(Some(angle)) => number_text(angle as nat),
        TransformationSource::Vertex(vertex) => (seq!['('] + vertex_text(vertex)).push(')'),
    }
}

/// `r` for a rotation or `m` for a reflection, then the source.
pub open spec fn transformation_text(transformation: Transformation) -> Seq<char> {
    match transformation {
        Transformation::Rotation(source) => seq!['r'] + source_text(source),
        Transformation::Reflection(source) => seq!['m'] + source_text(source),
    }
}

/// The canonical text of each number.
pub open spec fn number_texts(numbers: Seq<usize>) -> Seq<Seq<char>> {
    Seq::new(numbers.len(), |i: int| number_text(numbers[i] as nat))
}

/// The polygon orders of each phase, separated by commas.
pub open spec fn phase_texts(phases: Seq<Seq<usize>>) -> Seq<Seq<char>> {
    Seq::new(phases.len(), |i: int| join(number_texts(phases[i]), ','))
}

/// The text of each transformation.
pub open spec fn transformation_texts(transformations: Seq<Transformation>) -> Seq<Seq<char>> {
    Seq::new(transformations.len(), |i: int| transformation_text(transformations[i]))
}

/// The seed, then each phase behind a `-`.
pub open spec fn seed_and_phases_text(seed: usize, phases: Seq<Seq<usize>>) -> Seq<char> {
    join(seq![number_text(seed as nat)] + phase_texts(phases), '-')
}

/// The canonical text of a configuration: the seed and the phases, a `/`, and the
/// transformations with a `/` between neighbours.
pub open spec fn configuration_text(configuration: ConfigurationModel) -> Seq<char> {
    seed_and_phases_text(configuration.seed, configuration.phases).push('/') + join(
        transformation_texts(configuration.transformations),
        '/',
    )
}

} // verus!
