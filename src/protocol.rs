use crate::board::Position;
use crate::piece::{Color, Piece, Shape};
use vstd::prelude::*;
use vstd::string::StrSliceExecFns;

verus! {

/// An instruction read from one line of input.
#[derive(Debug, Clone, Copy)]
pub enum Command {
    Place(Piece, Position),
    State,
}

/// What a failed parse expected.
#[derive(Debug, Clone, Copy, PartialEq, Eq, Structural)]
pub enum ErrorKind {
    /// A literal keyword or separator.
    Tag,
    /// A decimal integer that fits in `i64`.
    Digit,
}

/// A parse failure: the input left where it happened, and what was expected there.
#[derive(Debug, Clone)]
pub struct ParseError {
    pub input: String,
    pub code: ErrorKind,
}

impl View for ParseError {
    type V = (ErrorKind, Seq<char>);

    open spec fn view(&self) -> (ErrorKind, Seq<char>) {
        (self.code, self.input@)
    }
}

/// The result of one parsing step: a value and the input after it, or an error.
pub type Step<T> = Result<(T, Seq<char>), (ErrorKind, Seq<char>)>;

pub open spec fn step_view<'a, T>(r: Result<(T, &'a str), ParseError>) -> Step<T> {
    match r {
        Ok((v, rest)) => Ok((v, rest@)),
        Err(e) => Err(e@),
    }
}

pub open spec fn starts_with(s: Seq<char>, p: Seq<char>) -> bool {
    p.len() <= s.len() && s.take(p.len() as int) == p
}

/// Matches the literal `lit` at the start of `s`.
pub open spec fn spec_tag(s: Seq<char>, lit: Seq<char>) -> Result<Seq<char>, (ErrorKind, Seq<char>)> {
    if starts_with(s, lit) {
        Ok(s.skip(lit.len() as int))
    } else {
        Err((ErrorKind::Tag, s))
    }
}

/// `s` without a leading `:`, if it has one.
pub open spec fn skip_colon(s: Seq<char>) -> Seq<char> {
    if starts_with(s, ":"@) {
        s.skip(":"@.len() as int)
    } else {
        s
    }
}

pub open spec fn shape_name(shape: Shape) -> Seq<char> {
    match shape {
        Shape::Circle => "circle"@,
        Shape::Star4 => "star4"@,
        Shape::Diamond => "diamond"@,
        Shape::Square => "square"@,
        Shape::Star8 => "star8"@,
        Shape::Clover => "clover"@,
    }
}

pub open spec fn color_name(color: Color) -> Seq<char> {
    match color {
        Color::Red => "red"@,
        Color::Orange => "orange"@,
        Color::Yellow => "yellow"@,
        Color::Green => "green"@,
        Color::Blue => "blue"@,
        Color::Purple => "purple"@,
    }
}

/// The shape named at the start of `s`.
pub open spec fn spec_shape(s: Seq<char>) -> Step<Shape> {
    if starts_with(s, "circle"@) {
        Ok((Shape::Circle, s.skip("circle"@.len() as int)))
    } else if starts_with(s, "star4"@) {
        Ok((Shape::Star4, s.skip("star4"@.len() as int)))
    } else if starts_with(s, "diamond"@) {
        Ok((Shape::Diamond, s.skip("diamond"@.len() as int)))
    } else if starts_with(s, "square"@) {
        Ok((Shape::Square, s.skip("square"@.len() as int)))
    } else if starts_with(s, "star8"@) {
        Ok((Shape::Star8, s.skip("star8"@.len() as int)))
    } else if starts_with(s, "clover"@) {
        Ok((Shape::Clover, s.skip("clover"@.len() as int)))
    } else {
        Err((ErrorKind::Tag, s))
    }
}

/// The color named at the start of `s`.
pub open spec fn spec_color(s: Seq<char>) -> Step<Color> {
    if starts_with(s, "red"@) {
        Ok((Color::Red, s.skip("red"@.len() as int)))
    } else if starts_with(s, "orange"@) {
        Ok((Color::Orange, s.skip("orange"@.len() as int)))
    } else if starts_with(s, "yellow"@) {
        Ok((Color::Yellow, s.skip("yellow"@.len() as int)))
    } else if starts_with(s, "green"@) {
        Ok((Color::Green, s.skip("green"@.len() as int)))
    } else if starts_with(s, "blue"@) {
        Ok((Color::Blue, s.skip("blue"@.len() as int)))
    } else if starts_with(s, "purple"@) {
        Ok((Color::Purple, s.skip("purple"@.len() as int)))
    } else {
        Err((ErrorKind::Tag, s))
    }
}

pub open spec fn is_digit(c: char) -> bool {
    '0' <= c <= '9'
}

/// The number of decimal digits at the start of `s`.
pub open spec fn digit_run(s: Seq<char>) -> nat
    decreases s.len(),
{
    if s.len() > 0 && is_digit(s[0]) {
        1 + digit_run(s.drop_first())
    } else {
        0
    }
}

/// The value of a string of decimal digits.
pub open spec fn digits_value(d: Seq<char>) -> int
    decreases d.len(),
{
    if d.len() == 0 {
        0
    } else {
        digits_value(d.drop_last()) * 10 + (d.last() as int - '0' as int)
    }
}

/// The length of an optional leading `+` or `-`.
pub open spec fn sign_len(s: Seq<char>) -> int {
    if s.len() > 0 && (s[0] == '-' || s[0] == '+') {
        1
    } else {
        0
    }
}

/// The digits of the integer literal at the start of `s`.
pub open spec fn int_digits(s: Seq<char>) -> Seq<char> {
    let t = s.skip(sign_len(s));
    t.take(digit_run(t) as int)
}

/// The length of the integer literal at the start of `s`.
pub open spec fn int_len(s: Seq<char>) -> int {
    sign_len(s) + int_digits(s).len()
}

/// The value of the integer literal at the start of `s`.
pub open spec fn int_value(s: Seq<char>) -> int {
    if sign_len(s) == 1 && s[0] == '-' {
        -digits_value(int_digits(s))
    } else {
        digits_value(int_digits(s))
    }
}

/// `s` starts with an integer literal whose value fits in `i64`.
pub open spec fn int_ok(s: Seq<char>) -> bool {
    int_digits(s).len() > 0 && i64::MIN <= int_value(s) <= i64::MAX
}

/// The integer literal at the start of `s`.
pub open spec fn spec_int(s: Seq<char>) -> Step<i64> {
    if int_ok(s) {
        Ok((int_value(s) as i64, s.skip(int_len(s))))
    } else {
        Err((ErrorKind::Digit, s))
    }
}

/// `shape "&" color` at the start of `s`.
pub open spec fn spec_piece(s: Seq<char>) -> Step<Piece> {
    match spec_shape(s) {
        Err(e) => Err(e),
        Ok((shape, r1)) => match spec_tag(r1, "&"@) {
            Err(e) => Err(e),
            Ok(r2) => match spec_color(r2) {
                Err(e) => Err(e),
                Ok((color, r3)) => Ok((Piece::spec_new(shape, color), r3)),
            },
        },
    }
}

/// `integer "," integer` at the start of `s`.
pub open spec fn spec_position(s: Seq<char>) -> Step<Position> {
    match spec_int(s) {
        Err(e) => Err(e),
        Ok((x, r1)) => match spec_tag(r1, ","@) {
            Err(e) => Err(e),
            Ok(r2) => match spec_int(r2) {
                Err(e) => Err(e),
                Ok((y, r3)) => Ok((Position::spec_new(x, y), r3)),
            },
        },
    }
}

/// `piece "@" position` at the start of `s`.
pub open spec fn spec_place_args(s: Seq<char>) -> Step<(Piece, Position)> {
    match spec_piece(s) {
        Err(e) => Err(e),
        Ok((piece, r1)) => match spec_tag(r1, "@"@) {
            Err(e) => Err(e),
            Ok(r2) => match spec_position(r2) {
                Err(e) => Err(e),
                Ok((position, r3)) => Ok(((piece, position), r3)),
            },
        },
    }
}

/// The command that a line of input reads as. Whatever follows a complete
/// command is ignored.
pub open spec fn spec_command(s: Seq<char>) -> Result<Command, (ErrorKind, Seq<char>)> {
    if starts_with(s, "place"@) {
        match spec_place_args(skip_colon(s.skip("place"@.len() as int))) {
            Err(e) => Err(e),
            Ok(((piece, position), _)) => Ok(Command::Place(piece, position)),
        }
    } else if starts_with(s, "state"@) {
        Ok(Command::State)
    } else {
        Err((ErrorKind::Tag, s))
    }
}

pub open spec fn command_view(r: Result<Command, ParseError>) -> Result<Command, (ErrorKind, Seq<char>)> {
    match r {
        Ok(c) => Ok(c),
        Err(e) => Err(e@),
    }
}

/// Relies on nom::character::complete::i64: an optional `+` or `-`, then the
/// longest run of ASCII digits, read as an `i64`; it fails when no digit
/// follows the sign or the value does not fit.
#[verifier::external_body]
fn leading_i64<'a>(s: &'a str) -> (r: Option<(&'a str, i64)>)
    ensures
        match r {
            Some((rest, v)) => int_ok(s@) && v as int == int_value(s@) && rest@ == s@.skip(
                int_len(s@),
            ),
            None => !int_ok(s@),
        },
{
    nom::character::complete::i64::<&str, nom::error::Error<&str>>(s).ok()
}

fn fail(s: &str, code: ErrorKind) -> (e: ParseError)
    ensures
        e@ == (code, s@),
{
    ParseError { input: s.to_owned(), code }
}

/// Whether `s` starts with `lit`.
fn has_prefix(s: &str, lit: &str) -> (r: bool)
    ensures
        r == starts_with(s@, lit@),
{
    let n = lit.unicode_len();
    let m = s.unicode_len();
    if n > m {
        return false;
    }
    let mut i: usize = 0;
    while i < n
        invariant
            n == lit@.len(),
            m == s@.len(),
            n <= m,
            i <= n,
            forall|j: int| 0 <= j < i ==> s@[j] == lit@[j],
        decreases n - i,
    {
        if s.get_char(i) != lit.get_char(i) {
            assert(s@.take(n as int)[i as int] != lit@[i as int]);
            return false;
        }
        i = i + 1;
    }
    assert(s@.take(n as int) =~= lit@);
    true
}

fn tag<'a>(s: &'a str, lit: &str) -> (r: Result<&'a str, ParseError>)
    ensures
        match r {
            Ok(rest) => spec_tag(s@, lit@) == Ok::<Seq<char>, (ErrorKind, Seq<char>)>(rest@),
            Err(e) => spec_tag(s@, lit@) == Err::<Seq<char>, (ErrorKind, Seq<char>)>(e@),
        },
{
    if has_prefix(s, lit) {
        let n = lit.unicode_len();
        let m = s.unicode_len();
        let rest = s.substring_char(n, m);
        assert(rest@ =~= s@.skip(lit@.len() as int));
        Ok(rest)
    } else {
        Err(fail(s, ErrorKind::Tag))
    }
}

fn shape<'a>(s: &'a str) -> (r: Result<(Shape, &'a str), ParseError>)
    ensures
        step_view(r) == spec_shape(s@),
{
    if let Ok(rest) = tag(s, "circle") {
        return Ok((Shape::Circle, rest));
    }
    if let Ok(rest) = tag(s, "star4") {
        return Ok((Shape::Star4, rest));
    }
    if let Ok(rest) = tag(s, "diamond") {
        return Ok((Shape::Diamond, rest));
    }
    if let Ok(rest) = tag(s, "square") {
        return Ok((Shape::Square, rest));
    }
    if let Ok(rest) = tag(s, "star8") {
        return Ok((Shape::Star8, rest));
    }
    if let Ok(rest) = tag(s, "clover") {
        return Ok((Shape::Clover, rest));
    }
    Err(fail(s, ErrorKind::Tag))
}

fn color<'a>(s: &'a str) -> (r: Result<(Color, &'a str), ParseError>)
    ensures
        step_view(r) == spec_color(s@),
{
    if let Ok(rest) = tag(s, "red") {
        return Ok((Color::Red, rest));
    }
    if let Ok(rest) = tag(s, "orange") {
        return Ok((Color::Orange, rest));
    }
    if let Ok(rest) = tag(s, "yellow") {
        return Ok((Color::Yellow, rest));
    }
    if let Ok(rest) = tag(s, "green") {
        return Ok((Color::Green, rest));
    }
    if let Ok(rest) = tag(s, "blue") {
        return Ok((Color::Blue, rest));
    }
    if let Ok(rest) = tag(s, "purple") {
        return Ok((Color::Purple, rest));
    }
    Err(fail(s, ErrorKind::Tag))
}

fn integer<'a>(s: &'a str) -> (r: Result<(i64, &'a str), ParseError>)
    ensures
        step_view(r) == spec_int(s@),
{
    match leading_i64(s) {
        Some((rest, v)) => Ok((v, rest)),
        None => Err(fail(s, ErrorKind::Digit)),
    }
}

fn piece<'a>(s: &'a str) -> (r: Result<(Piece, &'a str), ParseError>)
    ensures
        step_view(r) == spec_piece(s@),
{
    let (shape, s) = shape(s)?;
    let s = tag(s, "&")?;
    let (color, s) = color(s)?;
    Ok((Piece::new(shape, color), s))
}

fn position<'a>(s: &'a str) -> (r: Result<(Position, &'a str), ParseError>)
    ensures
        step_view(r) == spec_position(s@),
{
    let (x, s) = integer(s)?;
    let s = tag(s, ",")?;
    let (y, s) = integer(s)?;
    Ok((Position::new(x, y), s))
}

fn place_args<'a>(s: &'a str) -> (r: Result<((Piece, Position), &'a str), ParseError>)
    ensures
        step_view(r) == spec_place_args(s@),
{
    let (piece, s) = piece(s)?;
    let s = tag(s, "@")?;
    let (position, s) = position(s)?;
    Ok(((piece, position), s))
}

impl Command {
    /// Reads one line of input as a command:
    /// `place[:]<shape>&<color>@<x>,<y>` or `state[:]`.
    pub fn parse(s: &str) -> (r: Result<Command, ParseError>)
        ensures
            command_view(r) == spec_command(s@),
    {
        if let Ok(rest) = tag(s, "place") {
            let rest = match tag(rest, ":") {
                Ok(after) => after,
                Err(_) => rest,
            };
            let ((piece, position), _) = place_args(rest)?;
            return Ok(Command::Place(piece, position));
        }
        if let Ok(_) = tag(s, "state") {
            return Ok(Command::State);
        }
        Err(fail(s, ErrorKind::Tag))
    }
}


/// An optional sign: nothing, `-` or `+`.
pub open spec fn is_sign(p: Seq<char>) -> bool {
    p == Seq::<char>::empty() || p == seq!['-'] || p == seq!['+']
}

pub open spec fn all_digits(d: Seq<char>) -> bool {
    forall|i: int| 0 <= i < d.len() ==> is_digit(#[trigger] d[i])
}

/// The value of a sign followed by decimal digits.
pub open spec fn literal_value(sign: Seq<char>, d: Seq<char>) -> int {
    if sign == seq!['-'] {
        -digits_value(d)
    } else {
        digits_value(d)
    }
}

/// The line `place[:]<shape>&<color>@<x>,<y>`, with each integer written as
/// a sign and digits.
pub open spec fn place_line(
    colon: bool,
    shape: Shape,
    color: Color,
    sx: Seq<char>,
    dx: Seq<char>,
    sy: Seq<char>,
    dy: Seq<char>,
) -> Seq<char> {
    "place"@ + ((if colon {
        ":"@
    } else {
        Seq::<char>::empty()
    }) + (shape_name(shape) + ("&"@ + (color_name(color) + ("@"@ + (sx + (dx + (","@ + (sy
        + dy)))))))))
}

proof fn lemma_tag_concat(lit: Seq<char>, rest: Seq<char>)
    ensures
        starts_with(lit + rest, lit),
        spec_tag(lit + rest, lit) == Ok::<Seq<char>, (ErrorKind, Seq<char>)>(rest),
{
    assert((lit + rest).take(lit.len() as int) =~= lit);
    assert((lit + rest).skip(lit.len() as int) =~= rest);
}

proof fn lemma_shape_concat(shape: Shape, rest: Seq<char>)
    ensures
        spec_shape(shape_name(shape) + rest) == Ok::<(Shape, Seq<char>), (ErrorKind, Seq<char>)>(
            (shape, rest),
        ),
        (shape_name(shape) + rest)[0] != ':',
{
    reveal_strlit("circle");
    reveal_strlit("star4");
    reveal_strlit("diamond");
    reveal_strlit("square");
    reveal_strlit("star8");
    reveal_strlit("clover");
    let s = shape_name(shape) + rest;
    lemma_tag_concat(shape_name(shape), rest);
    assert(s[0] == shape_name(shape)[0]);
    assert(s[1] == shape_name(shape)[1]);
    assert(s[4] == shape_name(shape)[4]);
    if s.len() >= 6 {
        assert(s.take(6)[1] == s[1]);
    }
    if s.len() >= 5 {
        assert(s.take(5)[1] == s[1]);
    }
    if s.len() >= 7 {
        assert(s.take(7)[1] == s[1]);
    }
    if s.len() >= 5 {
        assert(s.take(5)[4] == s[4]);
    }
    if s.len() >= 6 {
        assert(s.take(6)[0] == s[0]);
    }
    if s.len() >= 7 {
        assert(s.take(7)[0] == s[0]);
    }
    if s.len() >= 5 {
        assert(s.take(5)[0] == s[0]);
    }
}

proof fn lemma_color_concat(color: Color, rest: Seq<char>)
    ensures
        spec_color(color_name(color) + rest) == Ok::<(Color, Seq<char>), (ErrorKind, Seq<char>)>(
            (color, rest),
        ),
{
    reveal_strlit("red");
    reveal_strlit("orange");
    reveal_strlit("yellow");
    reveal_strlit("green");
    reveal_strlit("blue");
    reveal_strlit("purple");
    let s = color_name(color) + rest;
    lemma_tag_concat(color_name(color), rest);
    assert(s[0] == color_name(color)[0]);
    if s.len() >= 3 {
        assert(s.take(3)[0] == s[0]);
    }
    if s.len() >= 4 {
        assert(s.take(4)[0] == s[0]);
    }
    if s.len() >= 5 {
        assert(s.take(5)[0] == s[0]);
    }
    if s.len() >= 6 {
        assert(s.take(6)[0] == s[0]);
    }
}

proof fn lemma_digit_run(d: Seq<char>, t: Seq<char>)
    requires
        all_digits(d),
        t.len() == 0 || !is_digit(t[0]),
    ensures
        digit_run(d + t) == d.len(),
    decreases d.len(),
{
    if d.len() == 0 {
        assert(d + t =~= t);
    } else {
        assert((d + t)[0] == d[0]);
        assert((d + t).drop_first() =~= d.drop_first() + t);
        assert(all_digits(d.drop_first())) by {
            assert forall|i: int| 0 <= i < d.drop_first().len() implies is_digit(
                #[trigger] d.drop_first()[i],
            ) by {
                assert(d.drop_first()[i] == d[i + 1]);
            }
        }
        lemma_digit_run(d.drop_first(), t);
    }
}

proof fn lemma_int_concat(sign: Seq<char>, d: Seq<char>, t: Seq<char>)
    requires
        is_sign(sign),
        d.len() > 0,
        all_digits(d),
        t.len() == 0 || !is_digit(t[0]),
        i64::MIN <= literal_value(sign, d) <= i64::MAX,
    ensures
        spec_int(sign + (d + t)) == Ok::<(i64, Seq<char>), (ErrorKind, Seq<char>)>(
            (literal_value(sign, d) as i64, t),
        ),
{
    let s = sign + (d + t);
    assert(is_digit(d[0]));
    if sign.len() == 0 {
        assert(s =~= d + t);
        assert(s[0] == d[0]);
    } else {
        assert(s[0] == sign[0]);
        assert(s.skip(1) =~= d + t);
    }
    assert(s.skip(sign_len(s)) =~= d + t);
    lemma_digit_run(d, t);
    assert((d + t).take(d.len() as int) =~= d);
    assert(int_digits(s) == d);
    assert(s.skip(int_len(s)) =~= t);
}

/// Every `place` line of the grammar reads as the command it writes down:
/// the named piece on the cell whose coordinates the two integers give.
pub proof fn lemma_place_round_trip(
    colon: bool,
    shape: Shape,
    color: Color,
    sx: Seq<char>,
    dx: Seq<char>,
    sy: Seq<char>,
    dy: Seq<char>,
)
    requires
        is_sign(sx),
        is_sign(sy),
        dx.len() > 0,
        dy.len() > 0,
        all_digits(dx),
        all_digits(dy),
        i64::MIN <= literal_value(sx, dx) <= i64::MAX,
        i64::MIN <= literal_value(sy, dy) <= i64::MAX,
    ensures
        spec_command(place_line(colon, shape, color, sx, dx, sy, dy)) == Ok::<
            Command,
            (ErrorKind, Seq<char>),
        >(
            Command::Place(
                Piece::spec_new(shape, color),
                Position::spec_new(literal_value(sx, dx) as i64, literal_value(sy, dy) as i64),
            ),
        ),
{
    reveal_strlit(":");
    reveal_strlit(",");
    let r4 = sx + (dx + (","@ + (sy + dy)));
    let r3 = color_name(color) + ("@"@ + r4);
    let r2 = shape_name(shape) + ("&"@ + r3);
    let c = if colon {
        ":"@
    } else {
        Seq::<char>::empty()
    };
    let s = place_line(colon, shape, color, sx, dx, sy, dy);
    lemma_tag_concat("place"@, c + r2);
    lemma_shape_concat(shape, "&"@ + r3);
    if colon {
        lemma_tag_concat(":"@, r2);
    } else {
        assert(c + r2 =~= r2);
        assert(r2[0] != ':');
        assert(!starts_with(r2, ":"@)) by {
            if starts_with(r2, ":"@) {
                assert(r2.take(1)[0] == r2[0]);
            }
        }
    }
    assert(skip_colon(s.skip("place"@.len() as int)) == r2);
    lemma_tag_concat("&"@, r3);
    lemma_color_concat(color, "@"@ + r4);
    lemma_tag_concat("@"@, r4);
    assert(!is_digit((","@ + (sy + dy))[0]));
    lemma_int_concat(sx, dx, ","@ + (sy + dy));
    lemma_tag_concat(","@, sy + dy);
    assert(sy + dy =~= sy + (dy + Seq::<char>::empty()));
    lemma_int_concat(sy, dy, Seq::<char>::empty());
}

/// Any text after `state`, with or without a colon, reads as `State`.
pub proof fn lemma_state_line(rest: Seq<char>)
    ensures
        spec_command("state"@ + rest) == Ok::<Command, (ErrorKind, Seq<char>)>(Command::State),
{
    reveal_strlit("state");
    reveal_strlit("place");
    lemma_tag_concat("state"@, rest);
    let s = "state"@ + rest;
    assert(s[1] == 't');
    assert(!starts_with(s, "place"@)) by {
        if starts_with(s, "place"@) {
            if s.len() >= 5 {
        assert(s.take(5)[1] == s[1]);
    }
        }
    }
}

/// A `place` line whose shape is not followed by `&` fails there, and the
/// error reports that a literal was expected at that point.
pub proof fn lemma_missing_ampersand(colon: bool, shape: Shape, rest: Seq<char>)
    requires
        !starts_with(rest, "&"@),
    ensures
        spec_command(
            "place"@ + ((if colon {
                ":"@
            } else {
                Seq::<char>::empty()
            }) + (shape_name(shape) + rest)),
        ) == Err::<Command, (ErrorKind, Seq<char>)>((ErrorKind::Tag, rest)),
{
    reveal_strlit(":");
    let r2 = shape_name(shape) + rest;
    let c = if colon {
        ":"@
    } else {
        Seq::<char>::empty()
    };
    let s = "place"@ + (c + r2);
    lemma_tag_concat("place"@, c + r2);
    lemma_shape_concat(shape, rest);
    if colon {
        lemma_tag_concat(":"@, r2);
    } else {
        assert(c + r2 =~= r2);
        assert(!starts_with(r2, ":"@)) by {
            if starts_with(r2, ":"@) {
                assert(r2.take(1)[0] == r2[0]);
            }
        }
    }
    assert(skip_colon(s.skip("place"@.len() as int)) == r2);
}

} // verus!
