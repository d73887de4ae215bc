//! The control protocol: one command per line, one reply per command.

use crate::geometry::{Crop, CropState, HEIGHT, WIDTH};
use crate::number::{decimal, decimal_digits, is_digit, number, parse_u16};
use crate::text::{
    chars_of, free_of, is_space, lemma_split_first, lemma_split_not_empty, lemma_split_whole,
    lemma_trim_nothing, spells, split, split_on, trim, trim_slice, views,
};
use vstd::prelude::*;

verus! {

/// Why a `zoom_to` command was refused.
#[derive(Copy, Clone, Debug, PartialEq, Eq, Structural)]
pub enum ZoomError {
    /// The command has no parameter.
    MissingParameter,
    /// The parameter is not of the form `<W>x<H>+<X>+<Y>`, with four numbers
    /// of at most 16 bits and a width and a height above zero.
    IncorrectSyntax,
    /// The viewport reaches beyond the right edge of the frame.
    OutsideHorizontally,
    /// The viewport reaches beyond the bottom edge of the frame.
    OutsideVertically,
}

impl ZoomError {
    /// The characters of the text that tells the client of this error.
    pub open spec fn text(self) -> Seq<char> {
        match self {
            ZoomError::MissingParameter => "Missing parameter"@,
            ZoomError::IncorrectSyntax => "Incorrect resolution syntax"@,
            ZoomError::OutsideHorizontally => {
                "Viewport is outside the screen in horizontal direction"@
            },
            ZoomError::OutsideVertically => {
                "Viewport is outside the screen in vertical direction"@
            },
        }
    }

    /// The text that tells the client of this error.
    pub fn message(self) -> (m: &'static str)
        ensures
            m@ == self.text(),
    {
        match self {
            ZoomError::MissingParameter => "Missing parameter",
            ZoomError::IncorrectSyntax => "Incorrect resolution syntax",
            ZoomError::OutsideHorizontally => {
                "Viewport is outside the screen in horizontal direction"
            },
            ZoomError::OutsideVertically => {
                "Viewport is outside the screen in vertical direction"
            },
        }
    }
}

/// The viewport that four numbers ask for, or the reason why there is no
/// such viewport. An empty viewport is refused with the numbers; of the two
/// directions the horizontal one is looked at first.
pub open spec fn checked_crop(w: u16, h: u16, x: u16, y: u16) -> Result<Crop, ZoomError> {
    if w == 0 || h == 0 {
        Err(ZoomError::IncorrectSyntax)
    } else if w + x > WIDTH {
        Err(ZoomError::OutsideHorizontally)
    } else if h + y > HEIGHT {
        Err(ZoomError::OutsideVertically)
    } else {
        Ok(Crop { x, y, w, h })
    }
}

/// What the words `parts` of a `zoom_to` command ask for. The first word is
/// the command's name. The second is the parameter `<W>x<H>+<X>+<Y>`: `+`
/// cuts it in three, `x` cuts the first of these in two, and each of the
/// four pieces is a number. Further words are ignored.
pub open spec fn zoom_request(parts: Seq<Seq<char>>) -> Result<Crop, ZoomError> {
    if parts.len() < 2 {
        Err(ZoomError::MissingParameter)
    } else {
        let params = split(parts[1], '+');
        let size = split(params[0], 'x');
        if size.len() != 2 || params.len() != 3 {
            Err(ZoomError::IncorrectSyntax)
        } else {
            match (number(size[0]), number(size[1]), number(params[1]), number(params[2])) {
                (Some(w), Some(h), Some(x), Some(y)) => checked_crop(w, h, x, y),
                _ => Err(ZoomError::IncorrectSyntax),
            }
        }
    }
}

/// Reads the viewport out of the words of a `zoom_to` command.
pub fn parse_zoom_to(parts: &Vec<Vec<char>>) -> (r: Result<Crop, ZoomError>)
    ensures
        r == zoom_request(views(parts@)),
        r matches Ok(crop) ==> crop.fits(),
{
    if parts.len() < 2 {
        return Err(ZoomError::MissingParameter);
    }
    assert(views(parts@)[1] == parts@[1]@);
    let params = split_on(parts[1].as_slice(), '+');
    proof {
        lemma_split_not_empty(parts@[1]@, '+');
        assert(views(params@)[0] == params@[0]@);
    }
    let size = split_on(params[0].as_slice(), 'x');
    if size.len() != 2 || params.len() != 3 {
        return Err(ZoomError::IncorrectSyntax);
    }
    proof {
        assert(views(size@)[0] == size@[0]@);
        assert(views(size@)[1] == size@[1]@);
        assert(views(params@)[1] == params@[1]@);
        assert(views(params@)[2] == params@[2]@);
    }
    let w = parse_u16(size[0].as_slice());
    let h = parse_u16(size[1].as_slice());
    let x = parse_u16(params[1].as_slice());
    let y = parse_u16(params[2].as_slice());
    match (w, h, x, y) {
        (Some(w), Some(h), Some(x), Some(y)) => {
            if w == 0 || h == 0 {
                Err(ZoomError::IncorrectSyntax)
            } else if w as usize + x as usize > WIDTH {
                Err(ZoomError::OutsideHorizontally)
            } else if h as usize + y as usize > HEIGHT {
                Err(ZoomError::OutsideVertically)
            } else {
                Ok(Crop { x, y, w, h })
            }
        },
        _ => Err(ZoomError::IncorrectSyntax),
    }
}

/// What the server does about one line of a client.
#[derive(Copy, Clone, Debug, PartialEq, Eq, Structural)]
pub enum Response {
    /// The viewport was changed as asked.
    Accepted,
    /// The viewport was left as it was.
    Refused(ZoomError),
    /// The client is told the size of a frame.
    Resolution,
    /// The client is sent the next frame, whole, in place of a line of text.
    Snapshot,
    /// The line names no command.
    UnknownCommand,
}

impl Response {
    /// The text of the reply; none where the reply is a snapshot.
    pub open spec fn text(self) -> Option<Seq<char>> {
        match self {
            Response::Accepted => Some("OK"@),
            Response::Refused(e) => Some(e.text()),
            Response::Resolution => Some(
                decimal_digits(WIDTH as nat) + "x"@ + decimal_digits(HEIGHT as nat),
            ),
            Response::Snapshot => None,
            Response::UnknownCommand => Some("Unknown command"@),
        }
    }

    /// The line to send to the client: the text of the reply and a newline.
    /// There is none where the reply is a snapshot.
    pub fn line(self) -> (l: Option<String>)
        ensures
            match self.text() {
                Some(text) => l matches Some(s) && s@ == text + "\n"@,
                None => l is None,
            },
    {
        let mut s = match self {
            Response::Accepted => String::from_str("OK"),
            Response::Refused(e) => String::from_str(e.message()),
            Response::Resolution => {
                let mut s = decimal(WIDTH);
                s.append("x");
                s.append(decimal(HEIGHT).as_str());
                s
            },
            Response::Snapshot => {
                return None;
            },
            Response::UnknownCommand => String::from_str("Unknown command"),
        };
        s.append("\n");
        Some(s)
    }
}

/// What the line `line` does to the viewport `crop`, and the response to it.
/// The line is trimmed and cut into words at each single blank; the first
/// word names the command. Only an accepted `zoom_to` changes the viewport.
pub open spec fn respond(line: Seq<char>, crop: Crop) -> (Crop, Response) {
    let parts = split(trim(line), ' ');
    let name = parts[0];
    if name == "zoom_to"@ {
        match zoom_request(parts) {
            Ok(new_crop) => (new_crop, Response::Accepted),
            Err(e) => (crop, Response::Refused(e)),
        }
    } else if name == "get_resolution"@ {
        (crop, Response::Resolution)
    } else if name == "get_image"@ {
        (crop, Response::Snapshot)
    } else {
        (crop, Response::UnknownCommand)
    }
}

/// Handles one line of a client: changes the viewport in `state` if the
/// line asks for it, and says how to answer.
pub fn handle_command(line: &str, state: &mut CropState) -> (response: Response)
    ensures
        (final(state)@, response) == respond(line@, old(state)@),
{
    let chars = chars_of(line);
    let parts = split_on(trim_slice(chars.as_slice()), ' ');
    proof {
        lemma_split_not_empty(trim(line@), ' ');
        assert(views(parts@)[0] == parts@[0]@);
    }
    let name = parts[0].as_slice();
    if spells(name, "zoom_to") {
        match parse_zoom_to(&parts) {
            Ok(new_crop) => {
                state.write(new_crop);
                Response::Accepted
            },
            Err(e) => Response::Refused(e),
        }
    } else if spells(name, "get_resolution") {
        Response::Resolution
    } else if spells(name, "get_image") {
        Response::Snapshot
    } else {
        Response::UnknownCommand
    }
}

/// The line of a `zoom_to` command whose four numbers are written as
/// `width`, `height`, `left` and `top`.
pub open spec fn zoom_to_line(
    width: Seq<char>,
    height: Seq<char>,
    left: Seq<char>,
    top: Seq<char>,
) -> Seq<char> {
    "zoom_to"@ + seq![' '] + (width + seq!['x'] + height + seq!['+'] + left + seq!['+'] + top)
}

/// A number is written with digits only, so none of its characters is a
/// separator of the protocol or white space.
proof fn lemma_number_is_plain(s: Seq<char>)
    requires
        number(s) is Some,
    ensures
        s.len() > 0,
        free_of(s, ' '),
        free_of(s, '+'),
        free_of(s, 'x'),
        !is_space(s.last()),
{
    assert forall|i: int| 0 <= i < s.len() implies s[i] != ' ' && s[i] != '+' && s[i] != 'x'
        && !is_space(#[trigger] s[i]) by {
        assert(is_digit(s[i]));
    }
}

/// The pieces of text `a` and `b`, joined by the character `c`, are free of
/// a separator that is in none of them.
proof fn lemma_free_of_joined(a: Seq<char>, c: char, b: Seq<char>, sep: char)
    requires
        free_of(a, sep),
        free_of(b, sep),
        c != sep,
    ensures
        free_of(a + seq![c] + b, sep),
{
    let s = a + seq![c] + b;
    assert forall|i: int| 0 <= i < s.len() implies #[trigger] s[i] != sep by {
        if i < a.len() {
            assert(s[i] == a[i]);
        } else if i > a.len() {
            assert(s[i] == b[i - a.len() - 1]);
        }
    }
}

/// A `zoom_to` line with four numbers is answered by what `checked_crop`
/// says of the numbers: the viewport changes to the one asked for where that
/// is one, and stays as it was where not.
pub proof fn lemma_zoom_to_line(
    width: Seq<char>,
    height: Seq<char>,
    left: Seq<char>,
    top: Seq<char>,
    crop: Crop,
)
    requires
        number(width) is Some,
        number(height) is Some,
        number(left) is Some,
        number(top) is Some,
    ensures
        respond(zoom_to_line(width, height, left, top), crop) == match checked_crop(
            number(width)->0,
            number(height)->0,
            number(left)->0,
            number(top)->0,
        ) {
            Ok(new_crop) => (new_crop, Response::Accepted),
            Err(e) => (crop, Response::Refused(e)),
        },
{
    reveal_strlit("zoom_to");
    let name = "zoom_to"@;
    let size = width + seq!['x'] + height;
    let tail = left + seq!['+'] + top;
    let param = size + seq!['+'] + tail;
    let line = name + seq![' '] + param;
    lemma_number_is_plain(width);
    lemma_number_is_plain(height);
    lemma_number_is_plain(left);
    lemma_number_is_plain(top);
    assert(param =~= width + seq!['x'] + height + seq!['+'] + left + seq!['+'] + top);
    assert(line == zoom_to_line(width, height, left, top));
    // The line has no white space at either end.
    assert(line.first() == 'z');
    assert(line.last() == top.last());
    lemma_trim_nothing(line);
    // Its words are the name and the parameter.
    assert(free_of(name, ' '));
    lemma_free_of_joined(width, 'x', height, ' ');
    lemma_free_of_joined(left, '+', top, ' ');
    lemma_free_of_joined(size, '+', tail, ' ');
    lemma_split_first(name, param, ' ');
    lemma_split_whole(param, ' ');
    let parts = split(line, ' ');
    assert(parts =~= seq![name, param]);
    // The parameter holds the size and two offsets.
    lemma_free_of_joined(width, 'x', height, '+');
    lemma_split_first(size, tail, '+');
    lemma_split_first(left, top, '+');
    lemma_split_whole(top, '+');
    let params = split(param, '+');
    assert(params =~= seq![size, left, top]);
    // The size holds a width and a height.
    lemma_split_first(width, height, 'x');
    lemma_split_whole(height, 'x');
    assert(split(size, 'x') =~= seq![width, height]);
}

/// A `zoom_to` command for a viewport that is not empty and lies inside the
/// frame is accepted, and the viewport becomes just the one asked for.
pub proof fn lemma_zoom_to_accepted(
    width: Seq<char>,
    height: Seq<char>,
    left: Seq<char>,
    top: Seq<char>,
    crop: Crop,
)
    requires
        number(width) matches Some(w) && number(height) matches Some(h) && number(left) matches
            Some(x) && number(top) matches Some(y) && w > 0 && h > 0 && w + x <= WIDTH && h + y
            <= HEIGHT,
    ensures
        respond(zoom_to_line(width, height, left, top), crop) == (
            Crop {
                x: number(left)->0,
                y: number(top)->0,
                w: number(width)->0,
                h: number(height)->0,
            },
            Response::Accepted,
        ),
{
    lemma_zoom_to_line(width, height, left, top, crop);
}

/// A `zoom_to` command for a viewport that reaches beyond the right edge of
/// the frame is refused for that, and the viewport stays as it was.
pub proof fn lemma_zoom_to_outside_horizontally(
    width: Seq<char>,
    height: Seq<char>,
    left: Seq<char>,
    top: Seq<char>,
    crop: Crop,
)
    requires
        number(width) matches Some(w) && number(height) matches Some(h) && number(left) matches
            Some(x) && number(top) is Some && w > 0 && h > 0 && w + x > WIDTH,
    ensures
        respond(zoom_to_line(width, height, left, top), crop) == (
            crop,
            Response::Refused(ZoomError::OutsideHorizontally),
        ),
{
    lemma_zoom_to_line(width, height, left, top, crop);
}

/// A `zoom_to` command for a viewport that stays left of the right edge of
/// the frame but reaches beyond its bottom edge is refused for that, and
/// the viewport stays as it was.
pub proof fn lemma_zoom_to_outside_vertically(
    width: Seq<char>,
    height: Seq<char>,
    left: Seq<char>,
    top: Seq<char>,
    crop: Crop,
)
    requires
        number(width) matches Some(w) && number(height) matches Some(h) && number(left) matches
            Some(x) && number(top) matches Some(y) && w > 0 && h > 0 && w + x <= WIDTH && h + y
            > HEIGHT,
    ensures
        respond(zoom_to_line(width, height, left, top), crop) == (
            crop,
            Response::Refused(ZoomError::OutsideVertically),
        ),
{
    lemma_zoom_to_line(width, height, left, top, crop);
}

/// `zoom_to` without a parameter is refused for the missing parameter, and
/// the viewport stays as it was.
pub proof fn lemma_zoom_to_without_parameter(crop: Crop)
    ensures
        respond("zoom_to"@, crop) == (crop, Response::Refused(ZoomError::MissingParameter)),
{
    reveal_strlit("zoom_to");
    let line = "zoom_to"@;
    lemma_trim_nothing(line);
    assert(free_of(line, ' '));
    lemma_split_whole(line, ' ');
}

/// `get_resolution` is answered with the width and the height of a frame,
/// whatever the viewport is, and leaves the viewport as it was.
pub proof fn lemma_get_resolution(crop: Crop)
    ensures
        respond("get_resolution"@, crop) == (crop, Response::Resolution),
        Response::Resolution.text() == Some("1280x720"@),
{
    reveal_strlit("get_resolution");
    reveal_strlit("zoom_to");
    let line = "get_resolution"@;
    lemma_trim_nothing(line);
    assert(free_of(line, ' '));
    lemma_split_whole(line, ' ');
    assert(line.len() != "zoom_to"@.len());
    reveal_strlit("1280x720");
    reveal_strlit("x");
    reveal_with_fuel(decimal_digits, 4);
    assert(decimal_digits(1280) =~= seq!['1', '2', '8', '0']);
    assert(decimal_digits(720) =~= seq!['7', '2', '0']);
    assert(decimal_digits(WIDTH as nat) + "x"@ + decimal_digits(HEIGHT as nat) =~= "1280x720"@);
}

/// A line that was accepted is accepted again when it is repeated, and the
/// viewport is then what it was after the first time.
pub proof fn lemma_repeated_line(line: Seq<char>, crop: Crop)
    requires
        respond(line, crop).1 == Response::Accepted,
    ensures
        respond(line, respond(line, crop).0) == respond(line, crop),
{
}

/// The viewport that a line leaves is not empty and lies inside the frame,
/// where the one before was so.
pub proof fn lemma_viewport_stays_valid(line: Seq<char>, crop: Crop)
    requires
        crop.fits(),
    ensures
        respond(line, crop).0.fits(),
        !(respond(line, crop).1 is Accepted) ==> respond(line, crop).0 == crop,
{
}

} // verus!
