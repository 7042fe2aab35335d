//! Tiling configurations: reading one from its notation and writing it back.

use crate::geometry::notation::{
    configuration_of, configuration_text, number_texts, phase_texts, phases_of,
    seed_and_phases_text, shapes_of, source_of, source_text, strip_ends, transformation_of,
    transformation_text, transformation_texts, transformations_of, vertex_of, vertex_text,
    ConfigurationModel, ParseFailure,
};
use crate::geometry::round_trip::{lemma_read_is_well_formed, lemma_round_trip};
use crate::geometry::separated::{append_text, copy_range, join_texts, split_text, texts};
use crate::numerics::characters::{chars_of, string_of};
use crate::numerics::decimal::{number_text, read_number, write_number};
use vstd::prelude::*;

pub use crate::geometry::notation::{Transformation, TransformationSource, VertexType};

verus! {

/// A tiling configuration: the seed polygon, the rings of polygons around it, and
/// the transformations that replicate the patch.
#[derive(Debug, PartialEq)]
pub struct Configuration {
    /// The number of sides of the first tile.
    pub seed: usize,
    /// The rings of tiles around the seed, each a list of numbers of sides.
    pub phases: Vec<Vec<usize>>,
    /// The transformations, in the order in which they are applied.
    pub transformations: Vec<Transformation>,
}

/// Why a text could not be read as a configuration, with the part of the text that
/// the reason is about.
#[derive(Debug, PartialEq)]
pub enum ParseError {
    /// The whole text: it has no `/`, so no transformation.
    MissingTransformations(String),
    /// The seed: it is not a number.
    InvalidSeed(String),
    /// A polygon order of a phase: it is not a number.
    InvalidShape(String),
    /// A transformation is empty.
    EmptyTransformation,
    /// A transformation: it starts with neither `r` nor `m`.
    UnknownTransformationChar(String),
    /// The source of a transformation: nothing is left between its ends.
    EmptyVertexSpecifier(String),
    /// A vertex specifier: it starts with none of `v`, `c` and `h`.
    UnknownVertexTypeChar(String),
    /// The index of a vertex specifier: it is not a number.
    InvalidVertexIndex(String),
}

impl View for ParseError {
    type V = ParseFailure;

    open spec fn view(&self) -> ParseFailure {
        match self {
            ParseError::MissingTransformations(text) => ParseFailure::MissingTransformations(
                text@,
            ),
            ParseError::InvalidSeed(text) => ParseFailure::InvalidSeed(text@),
            ParseError::InvalidShape(text) => ParseFailure::InvalidShape(text@),
            ParseError::EmptyTransformation => ParseFailure::EmptyTransformation,
            ParseError::UnknownTransformationChar(text) => ParseFailure::UnknownTransformationChar(
                text@,
            ),
            ParseError::EmptyVertexSpecifier(text) => ParseFailure::EmptyVertexSpecifier(text@),
            ParseError::UnknownVertexTypeChar(text) => ParseFailure::UnknownVertexTypeChar(text@),
            ParseError::InvalidVertexIndex(text) => ParseFailure::InvalidVertexIndex(text@),
        }
    }
}

/// The lists that a list of vectors holds.
pub open spec fn lists(phases: Seq<Vec<usize>>) -> Seq<Seq<usize>> {
    Seq::new(phases.len(), |i: int| phases[i]@)
}

impl View for Configuration {
    type V = ConfigurationModel;

    open spec fn view(&self) -> ConfigurationModel {
        ConfigurationModel {
            seed: self.seed,
            phases: lists(self.phases@),
            transformations: self.transformations@,
        }
    }
}

/// Whether `result` is what the grammar gives: the same value, or an error that
/// stands for the same failure.
pub open spec fn agrees<T>(result: Result<T, ParseError>, expected: Result<T, ParseFailure>) -> bool {
    match result {
        Ok(value) => expected == Ok::<T, ParseFailure>(value),
        Err(error) => expected == Err::<T, ParseFailure>(error@),
    }
}

/// The sentence that describes a failure.
pub open spec fn failure_message(failure: ParseFailure) -> Seq<char> {
    match failure {
        ParseFailure::MissingTransformations(_) => "Configuration string must have at least one transformation"@,
        ParseFailure::InvalidSeed(_) => "Invalid seed in configuration string"@,
        ParseFailure::InvalidShape(_) => "Invalid shape in configuration string"@,
        ParseFailure::EmptyTransformation => "Empty transformation in configuration string"@,
        ParseFailure::UnknownTransformationChar(_) => "Unknown transformation character in configuration string"@,
        ParseFailure::EmptyVertexSpecifier(_) => "Empty vertex specifier in configuration string"@,
        ParseFailure::UnknownVertexTypeChar(_) => "Unknown vertex type character in configuration string"@,
        ParseFailure::InvalidVertexIndex(_) => "Invalid vertex index in configuration string"@,
    }
}

impl ParseError {
    /// The sentence that describes the error.
    pub fn message(&self) -> (text: &'static str)
        ensures
            text@ == failure_message(self@),
    {
        match self {
            ParseError::MissingTransformations(_) => "Configuration string must have at least one transformation",
            ParseError::InvalidSeed(_) => "Invalid seed in configuration string",
            ParseError::InvalidShape(_) => "Invalid shape in configuration string",
            ParseError::EmptyTransformation => "Empty transformation in configuration string",
            ParseError::UnknownTransformationChar(_) => "Unknown transformation character in configuration string",
            ParseError::EmptyVertexSpecifier(_) => "Empty vertex specifier in configuration string",
            ParseError::UnknownVertexTypeChar(_) => "Unknown vertex type character in configuration string",
            ParseError::InvalidVertexIndex(_) => "Invalid vertex index in configuration string",
        }
    }
}

/// Reads a non-empty vertex specifier: the letter first, then the index.
fn read_vertex(specifier: &Vec<char>) -> (result: Result<VertexType, ParseError>)
    requires
        specifier@.len() >= 1,
    ensures
        agrees(result, vertex_of(specifier@)),
{
    let letter = specifier[0];
    if letter != 'v' && letter != 'c' && letter != 'h' {
        return Err(ParseError::UnknownVertexTypeChar(string_of(specifier)));
    }
    let index_text = copy_range(specifier, 1, specifier.len());
    assert(index_text@ =~= specifier@.drop_first());
    match read_number(&index_text) {
        None => Err(ParseError::InvalidVertexIndex(string_of(&index_text))),
        Some(index) => Ok(
            if letter == 'v' {
                VertexType::Corner(index)
            } else if letter == 'c' {
                VertexType::Centre(index)
            } else {
                VertexType::Edge(index)
            },
        ),
    }
}

/// Reads the source of a transformation from the text after its letter.
pub fn read_source(text: &Vec<char>) -> (result: Result<TransformationSource, ParseError>)
    ensures
        agrees(result, source_of(text@)),
{
    if text.len() == 0 {
        return Ok(TransformationSource::Origin(None));
    }
    match read_number(text) {
        Some(angle) => Ok(TransformationSource::Origin(Some(angle))),
        None => {
            let specifier = if text.len() >= 2 {
                copy_range(text, 1, text.len() - 1)
            } else {
                Vec::new()
            };
            assert(specifier@ =~= strip_ends(text@));
            if specifier.len() == 0 {
                return Err(ParseError::EmptyVertexSpecifier(string_of(text)));
            }
            match read_vertex(&specifier) {
                Ok(vertex) => Ok(TransformationSource::Vertex(vertex)),
                Err(error) => Err(error),
            }
        },
    }
}

/// Reads one transformation: the letter first, then the source.
pub fn read_transformation(piece: &Vec<char>) -> (result: Result<Transformation, ParseError>)
    ensures
        agrees(result, transformation_of(piece@)),
{
    if piece.len() == 0 {
        return Err(ParseError::EmptyTransformation);
    }
    let letter = piece[0];
    if letter != 'r' && letter != 'm' {
        return Err(ParseError::UnknownTransformationChar(string_of(piece)));
    }
    let source_text = copy_range(piece, 1, piece.len());
    assert(source_text@ =~= piece@.drop_first());
    match read_source(&source_text) {
        Ok(source) => Ok(
            if letter == 'r' {
                Transformation::Rotation(source)
            } else {
                Transformation::Reflection(source)
            },
        ),
        Err(error) => Err(error),
    }
}

/// A failure among the first tokens of a phase is the failure of the phase.
proof fn lemma_shapes_failure(tokens: Seq<Seq<char>>, k: int)
    requires
        0 <= k <= tokens.len(),
        shapes_of(tokens.take(k)) is Err,
    ensures
        shapes_of(tokens) == shapes_of(tokens.take(k)),
    decreases tokens.len(),
{
    if k == tokens.len() {
        assert(tokens.take(k) =~= tokens);
    } else {
        assert(tokens.drop_last().take(k) =~= tokens.take(k));
        lemma_shapes_failure(tokens.drop_last(), k);
    }
}

/// A failure among the first segments is the failure of all the phases.
proof fn lemma_phases_failure(segments: Seq<Seq<char>>, k: int)
    requires
        0 <= k <= segments.len(),
        phases_of(segments.take(k)) is Err,
    ensures
        phases_of(segments) == phases_of(segments.take(k)),
    decreases segments.len(),
{
    if k == segments.len() {
        assert(segments.take(k) =~= segments);
    } else {
        assert(segments.drop_last().take(k) =~= segments.take(k));
        lemma_phases_failure(segments.drop_last(), k);
    }
}

/// A failure among the first pieces is the failure of all the transformations.
proof fn lemma_transformations_failure(pieces: Seq<Seq<char>>, k: int)
    requires
        0 <= k <= pieces.len(),
        transformations_of(pieces.take(k)) is Err,
    ensures
        transformations_of(pieces) == transformations_of(pieces.take(k)),
    decreases pieces.len(),
{
    if k == pieces.len() {
        assert(pieces.take(k) =~= pieces);
    } else {
        assert(pieces.drop_last().take(k) =~= pieces.take(k));
        lemma_transformations_failure(pieces.drop_last(), k);
    }
}

/// Reads the polygon orders of one phase from its tokens, stopping at the first
/// token that is not a number.
pub fn read_shapes(tokens: &Vec<Vec<char>>) -> (result: Result<Vec<usize>, ParseError>)
    ensures
        match result {
            Ok(shapes) => shapes_of(texts(tokens@)) == Ok::<Seq<usize>, ParseFailure>(shapes@),
            Err(error) => shapes_of(texts(tokens@)) == Err::<Seq<usize>, ParseFailure>(error@),
        },
{
    let mut shapes: Vec<usize> = Vec::new();
    let mut i: usize = 0;
    assert(texts(tokens@).take(0) =~= Seq::<Seq<char>>::empty());
    while i < tokens.len()
        invariant
            i <= tokens.len(),
            shapes_of(texts(tokens@).take(i as int)) == Ok::<Seq<usize>, ParseFailure>(shapes@),
        decreases tokens.len() - i,
    {
        let ghost next = texts(tokens@).take(i + 1);
        assert(next.drop_last() =~= texts(tokens@).take(i as int));
        assert(next.last() == tokens@[i as int]@);
        match read_number(&tokens[i]) {
            Some(shape) => {
                shapes.push(shape);
            },
            None => {
                proof {
                    lemma_shapes_failure(texts(tokens@), i + 1);
                }
                return Err(ParseError::InvalidShape(string_of(&tokens[i])));
            },
        }
        i += 1;
    }
    assert(texts(tokens@).take(i as int) =~= texts(tokens@));
    Ok(shapes)
}

/// Reads the phases from the segments behind the seed, which is `segments[0]`.
fn read_phases(segments: &Vec<Vec<char>>) -> (result: Result<Vec<Vec<usize>>, ParseError>)
    requires
        segments@.len() >= 1,
    ensures
        match result {
            Ok(phases) => phases_of(texts(segments@).drop_first()) == Ok::<
                Seq<Seq<usize>>,
                ParseFailure,
            >(lists(phases@)),
            Err(error) => phases_of(texts(segments@).drop_first()) == Err::<
                Seq<Seq<usize>>,
                ParseFailure,
            >(error@),
        },
{
    let ghost rest = texts(segments@).drop_first();
    let mut phases: Vec<Vec<usize>> = Vec::new();
    let mut i: usize = 1;
    assert(rest.take(0) =~= Seq::<Seq<char>>::empty());
    assert(lists(phases@) =~= Seq::<Seq<usize>>::empty());
    while i < segments.len()
        invariant
            1 <= i <= segments.len(),
            rest == texts(segments@).drop_first(),
            phases_of(rest.take(i - 1)) == Ok::<Seq<Seq<usize>>, ParseFailure>(lists(phases@)),
        decreases segments.len() - i,
    {
        let ghost next = rest.take(i as int);
        let ghost before = lists(phases@);
        assert(next.drop_last() =~= rest.take(i - 1));
        assert(next.last() == segments@[i as int]@);
        let tokens = split_text(&segments[i], ',');
        match read_shapes(&tokens) {
            Ok(shapes) => {
                phases.push(shapes);
                assert(lists(phases@) =~= before.push(shapes@));
            },
            Err(error) => {
                proof {
                    lemma_phases_failure(rest, i as int);
                }
                return Err(error);
            },
        }
        i += 1;
    }
    assert(rest.take(i - 1) =~= rest);
    Ok(phases)
}

/// Reads the transformations from the pieces behind the first, which holds the seed
/// and the phases.
fn read_transformations(pieces: &Vec<Vec<char>>) -> (result: Result<
    Vec<Transformation>,
    ParseError,
>)
    requires
        pieces@.len() >= 1,
    ensures
        match result {
            Ok(transformations) => transformations_of(texts(pieces@).drop_first()) == Ok::<
                Seq<Transformation>,
                ParseFailure,
            >(transformations@),
            Err(error) => transformations_of(texts(pieces@).drop_first()) == Err::<
                Seq<Transformation>,
                ParseFailure,
            >(error@),
        },
{
    let ghost rest = texts(pieces@).drop_first();
    let mut transformations: Vec<Transformation> = Vec::new();
    let mut i: usize = 1;
    assert(rest.take(0) =~= Seq::<Seq<char>>::empty());
    while i < pieces.len()
        invariant
            1 <= i <= pieces.len(),
            rest == texts(pieces@).drop_first(),
            transformations_of(rest.take(i - 1)) == Ok::<Seq<Transformation>, ParseFailure>(
                transformations@,
            ),
        decreases pieces.len() - i,
    {
        let ghost next = rest.take(i as int);
        assert(next.drop_last() =~= rest.take(i - 1));
        assert(next.last() == pieces@[i as int]@);
        match read_transformation(&pieces[i]) {
            Ok(transformation) => {
                transformations.push(transformation);
            },
            Err(error) => {
                proof {
                    lemma_transformations_failure(rest, i as int);
                }
                return Err(error);
            },
        }
        i += 1;
    }
    assert(rest.take(i - 1) =~= rest);
    Ok(transformations)
}

impl Configuration {
    /// A configuration of the given parts, of which the transformations are at least
    /// one.
    pub fn new(seed: usize, phases: Vec<Vec<usize>>, transformations: Vec<Transformation>) -> (configuration: Self)
        requires
            transformations@.len() >= 1,
        ensures
            configuration.seed == seed,
            configuration.phases == phases,
            configuration.transformations == transformations,
    {
        Configuration { seed, phases, transformations }
    }
}

/// Reading a configuration from its notation.
impl<'a> TryFrom<&'a str> for Configuration {
    type Error = ParseError;

    /// Reads a configuration from its notation. The result is the configuration that
    /// the grammar gives for the text, or the error for the first failure that the
    /// grammar finds. A configuration that is read has a transformation and no empty
    /// phase.
    fn try_from(value: &'a str) -> (result: Result<Configuration, ParseError>)
        ensures
            match result {
                Ok(configuration) => configuration@.well_formed() && configuration_of(value@)
                    == Ok::<ConfigurationModel, ParseFailure>(configuration@),
                Err(error) => configuration_of(value@) == Err::<ConfigurationModel, ParseFailure>(
                    error@,
                ),
            },
    {
        let text = chars_of(value);
        let pieces = split_text(&text, '/');
        if pieces.len() < 2 {
            return Err(ParseError::MissingTransformations(string_of(&text)));
        }
        let segments = split_text(&pieces[0], '-');
        assert(texts(pieces@)[0] == pieces@[0]@);
        assert(texts(segments@)[0] == segments@[0]@);
        let seed = match read_number(&segments[0]) {
            Some(seed) => seed,
            None => {
                return Err(ParseError::InvalidSeed(string_of(&segments[0])));
            },
        };
        let phases = match read_phases(&segments) {
            Ok(phases) => phases,
            Err(error) => {
                return Err(error);
            },
        };
        let transformations = match read_transformations(&pieces) {
            Ok(transformations) => transformations,
            Err(error) => {
                return Err(error);
            },
        };
        proof {
            lemma_read_is_well_formed(value@);
        }
        Ok(Configuration::new(seed, phases, transformations))
    }
}

impl<'a> vstd::std_specs::convert::TryFromSpecImpl<&'a str> for Configuration {
    /// What is read is stated over the grammar, in the `ensures` of `try_from`.
    open spec fn obeys_try_from_spec() -> bool {
        false
    }

    open spec fn try_from_spec(value: &'a str) -> Result<Configuration, ParseError> {
        Err(ParseError::EmptyTransformation)
    }
}

/// Writes a vertex: its letter, then its index.
pub fn write_vertex(vertex: &VertexType) -> (text: Vec<char>)
    ensures
        text@ == vertex_text(*vertex),
{
    let mut text: Vec<char> = Vec::new();
    let index = match vertex {
        VertexType::Corner(index) => {
            text.push('v');
            *index
        },
        VertexType::Centre(index) => {
            text.push('c');
            *index
        },
        VertexType::Edge(index) => {
            text.push('h');
            *index
        },
    };
    let ghost letter = text@;
    let digits = write_number(index as u64);
    append_text(&mut text, &digits);
    assert(letter =~= seq![letter[0]]);
    text
}

/// Writes a source: nothing, the angle, or the vertex in round brackets.
pub fn write_source(source: &TransformationSource) -> (text: Vec<char>)
    ensures
        text@ == source_text(*source),
{
    match source {
        TransformationSource::Origin(None) => Vec::new(),
        TransformationSource::Origin(Some(angle)) => write_number(*angle as u64),
        TransformationSource::Vertex(vertex) => {
            let mut text: Vec<char> = Vec::new();
            text.push('(');
            assert(text@ =~= seq!['(']);
            let inner = write_vertex(vertex);
            append_text(&mut text, &inner);
            text.push(')');
            text
        },
    }
}

/// Writes a transformation: its letter, then its source.
pub fn write_transformation(transformation: &Transformation) -> (text: Vec<char>)
    ensures
        text@ == transformation_text(*transformation),
{
    let mut text: Vec<char> = Vec::new();
    let source = match transformation {
        Transformation::Rotation(source) => {
            text.push('r');
            source
        },
        Transformation::Reflection(source) => {
            text.push('m');
            source
        },
    };
    let ghost letter = text@;
    let rest = write_source(source);
    append_text(&mut text, &rest);
    assert(letter =~= seq![letter[0]]);
    text
}

/// Writes each number of a list.
pub fn write_numbers(numbers: &Vec<usize>) -> (written: Vec<Vec<char>>)
    ensures
        texts(written@) == number_texts(numbers@),
{
    let mut written: Vec<Vec<char>> = Vec::new();
    let mut i: usize = 0;
    while i < numbers.len()
        invariant
            i <= numbers.len(),
            texts(written@) == number_texts(numbers@).take(i as int),
        decreases numbers.len() - i,
    {
        let ghost before = texts(written@);
        let text = write_number(numbers[i] as u64);
        written.push(text);
        assert(texts(written@) =~= before.push(text@));
        assert(texts(written@) =~= number_texts(numbers@).take(i + 1));
        i += 1;
    }
    assert(number_texts(numbers@).take(i as int) =~= number_texts(numbers@));
    written
}

/// Writes the seed and, behind a `-` each, the phases.
pub fn write_seed_and_phases(seed: usize, phases: &Vec<Vec<usize>>) -> (text: Vec<char>)
    ensures
        text@ == seed_and_phases_text(seed, lists(phases@)),
{
    let ghost all = seq![number_text(seed as nat)] + phase_texts(lists(phases@));
    let mut written: Vec<Vec<char>> = Vec::new();
    written.push(write_number(seed as u64));
    let mut i: usize = 0;
    assert(texts(written@) =~= all.take(1));
    while i < phases.len()
        invariant
            i <= phases.len(),
            all == seq![number_text(seed as nat)] + phase_texts(lists(phases@)),
            texts(written@) == all.take(i + 1),
        decreases phases.len() - i,
    {
        let ghost before = texts(written@);
        let shapes = write_numbers(&phases[i]);
        let text = join_texts(&shapes, ',');
        assert(lists(phases@)[i as int] == phases@[i as int]@);
        assert(text@ == all[i + 1]);
        written.push(text);
        assert(texts(written@) =~= before.push(text@));
        assert(texts(written@) =~= all.take(i + 2));
        i += 1;
    }
    assert(all.take(i + 1) =~= all);
    join_texts(&written, '-')
}

impl VertexType {
    /// The notation of the vertex.
    pub fn to_string(&self) -> (text: String)
        ensures
            text@ == vertex_text(*self),
    {
        string_of(&write_vertex(self))
    }
}

impl TransformationSource {
    /// The notation of the source.
    pub fn to_string(&self) -> (text: String)
        ensures
            text@ == source_text(*self),
    {
        string_of(&write_source(self))
    }
}

impl Transformation {
    /// The notation of the transformation.
    pub fn to_string(&self) -> (text: String)
        ensures
            text@ == transformation_text(*self),
    {
        string_of(&write_transformation(self))
    }
}

impl Configuration {
    /// Whether the configuration has a transformation and no empty phase, so that
    /// its notation reads back as the same configuration.
    pub fn is_well_formed(&self) -> (well_formed: bool)
        ensures
            well_formed == self@.well_formed(),
    {
        if self.transformations.len() == 0 {
            return false;
        }
        let mut i: usize = 0;
        while i < self.phases.len()
            invariant
                i <= self.phases.len(),
                forall|k: int| 0 <= k < i ==> (#[trigger] self@.phases[k]).len() >= 1,
            decreases self.phases.len() - i,
        {
            assert(self@.phases[i as int] == self.phases@[i as int]@);
            if self.phases[i].len() == 0 {
                return false;
            }
            i += 1;
        }
        true
    }

    /// The notation of the configuration. Where the configuration has a transformation
    /// and no empty phase, the notation reads back as the configuration.
    pub fn to_string(&self) -> (text: String)
        ensures
            text@ == configuration_text(self@),
            self@.well_formed() ==> configuration_of(text@) == Ok::<
                ConfigurationModel,
                ParseFailure,
            >(self@),
    {
        proof {
            if self@.well_formed() {
                lemma_round_trip(self@);
            }
        }
        let mut text = write_seed_and_phases(self.seed, &self.phases);
        text.push('/');
        let mut written: Vec<Vec<char>> = Vec::new();
        let mut i: usize = 0;
        while i < self.transformations.len()
            invariant
                i <= self.transformations.len(),
                texts(written@) == transformation_texts(self.transformations@).take(i as int),
            decreases self.transformations.len() - i,
        {
            let ghost before = texts(written@);
            let piece = write_transformation(&self.transformations[i]);
            written.push(piece);
            assert(texts(written@) =~= before.push(piece@));
            assert(texts(written@) =~= transformation_texts(self.transformations@).take(i + 1));
            i += 1;
        }
        assert(transformation_texts(self.transformations@).take(i as int)
            =~= transformation_texts(self.transformations@));
        let tail = join_texts(&written, '/');
        append_text(&mut text, &tail);
        string_of(&text)
    }
}

} // verus!
