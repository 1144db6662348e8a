//! Levels written as text: a grid of tokens, one row per line.
//!
//! White space at both ends of the text does not count. Tokens are
//! separated by blanks. `.` is floor, `W` a wall, `P` the player, `BB`
//! and `RB` a blue and a red box, `BS` and `RS` a blue and a red box spot,
//! `N` nothing at all. Every token but `N` also lays floor. The row gives
//! `y` and the place in the row gives `x`.
//!
//! A text with another token, or with more than 256 rows or more than 256
//! tokens in a row, is no level and must not be loaded: `unrecognized_item`
//! and `level_fits` tell.
//!
//! Besides levels from text there is one fixed map, built cell by cell.

use crate::components::{BoxColour, Position};
use crate::entities::{
    box_on, box_spot_on, create_box, create_box_spot, create_floor, create_player, create_wall,
    floor_on, player_on, wall_on,
};
use crate::world::{EntityState, World, WorldState};
use vstd::prelude::*;

verus! {

/// What a token of a level puts on its cell.
#[derive(Clone, Copy, Debug, PartialEq, Eq, Structural)]
pub enum Tile {
    Floor,
    Wall,
    Player,
    Box(BoxColour),
    BoxSpot(BoxColour),
    Nothing,
}

/// The tile that `token` stands for, if it is a known token.
pub open spec fn tile_of(token: Seq<char>) -> Option<Tile> {
    if token == seq!['.'] {
        Some(Tile::Floor)
    } else if token == seq!['W'] {
        Some(Tile::Wall)
    } else if token == seq!['P'] {
        Some(Tile::Player)
    } else if token == seq!['N'] {
        Some(Tile::Nothing)
    } else if token == seq!['B', 'B'] {
        Some(Tile::Box(BoxColour::Blue))
    } else if token == seq!['R', 'B'] {
        Some(Tile::Box(BoxColour::Red))
    } else if token == seq!['B', 'S'] {
        Some(Tile::BoxSpot(BoxColour::Blue))
    } else if token == seq!['R', 'S'] {
        Some(Tile::BoxSpot(BoxColour::Red))
    } else {
        None
    }
}

/// A character that separates tokens within a row: white space other
/// than the line break.
pub open spec fn is_blank(c: char) -> bool {
    ||| c == ' '
    ||| c == '\t'
    ||| c == '\r'
    ||| c == '\u{b}'
    ||| c == '\u{c}'
    ||| c == '\u{85}'
    ||| c == '\u{a0}'
    ||| c == '\u{1680}'
    ||| '\u{2000}' <= c <= '\u{200a}'
    ||| c == '\u{2028}'
    ||| c == '\u{2029}'
    ||| c == '\u{202f}'
    ||| c == '\u{205f}'
    ||| c == '\u{3000}'
}

/// White space: a blank or a line break.
pub open spec fn is_space(c: char) -> bool {
    is_blank(c) || c == '\n'
}

/// Whether `c` ends a field: a line break when splitting into lines, a
/// blank when splitting a line.
pub open spec fn separates(c: char, into_lines: bool) -> bool {
    if into_lines {
        c == '\n'
    } else {
        is_blank(c)
    }
}

/// `s` split at every separator. The fields keep their order; two
/// separators in a row, or one at either end, give an empty field.
pub open spec fn fields(s: Seq<char>, into_lines: bool) -> Seq<Seq<char>>
    decreases s.len(),
{
    if s.len() == 0 {
        seq![Seq::empty()]
    } else {
        let before = fields(s.drop_last(), into_lines);
        if separates(s.last(), into_lines) {
            before.push(Seq::empty())
        } else {
            before.drop_last().push(before.last().push(s.last()))
        }
    }
}

/// The number of characters at the start of `s` that are white space.
pub open spec fn leading_space(s: Seq<char>) -> int
    decreases s.len(),
{
    if s.len() > 0 && is_space(s[0]) {
        1 + leading_space(s.drop_first())
    } else {
        0
    }
}

/// The number of characters at the end of `s` that are white space.
pub open spec fn trailing_space(s: Seq<char>) -> int
    decreases s.len(),
{
    if s.len() > 0 && is_space(s.last()) {
        1 + trailing_space(s.drop_last())
    } else {
        0
    }
}

/// `s` without the white space at its start and at its end.
pub open spec fn trimmed(s: Seq<char>) -> Seq<char> {
    let rest = s.skip(leading_space(s));
    rest.take(rest.len() - trailing_space(rest))
}

/// The lines of a level: the trimmed text, split at line breaks.
pub open spec fn lines_of(text: Seq<char>) -> Seq<Seq<char>> {
    fields(trimmed(text), true)
}

/// The tokens among `fields`, in their order: empty fields are none.
pub open spec fn words_in(fields: Seq<Seq<char>>) -> Seq<Seq<char>>
    decreases fields.len(),
{
    if fields.len() == 0 {
        Seq::empty()
    } else if fields.last().len() == 0 {
        words_in(fields.drop_last())
    } else {
        words_in(fields.drop_last()).push(fields.last())
    }
}

/// The tokens of `text`, row by row.
pub open spec fn words_of(text: Seq<char>) -> Seq<Seq<Seq<char>>> {
    Seq::new(lines_of(text).len(), |y: int| words_in(fields(lines_of(text)[y], false)))
}

/// What the tokens of `text` stand for, row by row.
pub open spec fn grid_of(text: Seq<char>) -> Seq<Seq<Option<Tile>>> {
    Seq::new(
        words_of(text).len(),
        |y: int| Seq::new(words_of(text)[y].len(), |x: int| tile_of(words_of(text)[y][x])),
    )
}

/// Every token of the grid is a known one.
pub open spec fn all_known(grid: Seq<Seq<Option<Tile>>>) -> bool {
    forall|y: int, x: int|
        0 <= y < grid.len() && 0 <= x < grid[y].len() ==> (#[trigger] grid[y][x]) is Some
}

/// The grid has at most 256 rows of at most 256 tiles.
pub open spec fn fits<T>(grid: Seq<Seq<T>>) -> bool {
    &&& grid.len() <= 256
    &&& forall|y: int| 0 <= y < grid.len() ==> (#[trigger] grid[y]).len() <= 256
}

/// `text` is a level: every token is a known one, and there are at most
/// 256 rows of at most 256 tokens.
pub open spec fn is_level(text: Seq<char>) -> bool {
    all_known(grid_of(text)) && fits(grid_of(text))
}

/// The token in row `y`, place `x` of `text` is not a known one.
pub open spec fn unknown_at(text: Seq<char>, y: int, x: int) -> bool {
    &&& 0 <= y < words_of(text).len()
    &&& 0 <= x < words_of(text)[y].len()
    &&& tile_of(words_of(text)[y][x]) is None
}

/// The token in row `y`, place `x` is the first of `text` that is not a
/// known one, reading row by row.
pub open spec fn first_unknown_at(text: Seq<char>, y: int, x: int) -> bool {
    &&& unknown_at(text, y, x)
    &&& forall|j: int, i: int| (j < y || (j == y && i < x)) ==> !unknown_at(text, j, i)
}

/// The tiles of a grid in which every token is known.
pub open spec fn tiles_of(grid: Seq<Seq<Option<Tile>>>) -> Seq<Seq<Tile>> {
    Seq::new(grid.len(), |y: int| Seq::new(grid[y].len(), |x: int| grid[y][x]->0))
}

/// The tiles of a level that is held row by row.
pub open spec fn level_view(level: Seq<Vec<Tile>>) -> Seq<Seq<Tile>> {
    Seq::new(level.len(), |y: int| level[y]@)
}

/// The texts of fields that are held one by one.
pub open spec fn texts(fields: Seq<Vec<char>>) -> Seq<Seq<char>> {
    Seq::new(fields.len(), |i: int| fields[i]@)
}

/// The tokens of a text that are held row by row.
pub open spec fn words_view(words: Seq<Vec<Vec<char>>>) -> Seq<Seq<Seq<char>>> {
    Seq::new(words.len(), |y: int| texts(words[y]@))
}

/// The characters of `text`.
pub fn chars_of(text: &str) -> (chars: Vec<char>)
    ensures
        chars@ == text@,
{
    let mut chars: Vec<char> = Vec::new();
    for c in it: text.chars()
        invariant
            chars@ == it.seq().take(it.index() as int),
            it.seq() == text@,
    {
        chars.push(c);
    }
    chars
}

/// The tile that `token` stands for, if it is a known token.
pub fn parse_tile(token: &Vec<char>) -> (tile: Option<Tile>)
    ensures
        tile == tile_of(token@),
{
    let tile = if token.len() == 1 {
        let c = token[0];
        if c == '.' {
            Some(Tile::Floor)
        } else if c == 'W' {
            Some(Tile::Wall)
        } else if c == 'P' {
            Some(Tile::Player)
        } else if c == 'N' {
            Some(Tile::Nothing)
        } else {
            None
        }
    } else if token.len() == 2 {
        let kind = token[1];
        let colour = if token[0] == 'B' {
            Some(BoxColour::Blue)
        } else if token[0] == 'R' {
            Some(BoxColour::Red)
        } else {
            None
        };
        match colour {
            Some(colour) => if kind == 'B' {
                Some(Tile::Box(colour))
            } else if kind == 'S' {
                Some(Tile::BoxSpot(colour))
            } else {
                None
            },
            None => None,
        }
    } else {
        None
    };
    proof {
        let t = token@;
        if t.len() == 1 {
            assert(t =~= seq![t[0]]);
            assert(seq!['.'][0] == '.' && seq!['W'][0] == 'W' && seq!['P'][0] == 'P' && seq!['N'][0]
                == 'N');
        } else if t.len() == 2 {
            assert(t =~= seq![t[0], t[1]]);
            assert(seq!['B', 'B'][0] == 'B' && seq!['B', 'B'][1] == 'B');
            assert(seq!['R', 'B'][0] == 'R' && seq!['R', 'B'][1] == 'B');
            assert(seq!['B', 'S'][0] == 'B' && seq!['B', 'S'][1] == 'S');
            assert(seq!['R', 'S'][0] == 'R' && seq!['R', 'S'][1] == 'S');
        }
        assert(seq!['.'].len() == 1 && seq!['W'].len() == 1 && seq!['P'].len() == 1 && seq!['N'].len()
            == 1);
        assert(seq!['B', 'B'].len() == 2 && seq!['R', 'B'].len() == 2 && seq!['B', 'S'].len() == 2
            && seq!['R', 'S'].len() == 2);
    }
    tile
}

/// Whether `c` is a blank.
pub fn is_blank_char(c: char) -> (b: bool)
    ensures
        b == is_blank(c),
{
    c == ' ' || c == '\t' || c == '\r' || c == '\u{b}' || c == '\u{c}' || c == '\u{85}' || c
        == '\u{a0}' || c == '\u{1680}' || ('\u{2000}' <= c && c <= '\u{200a}') || c == '\u{2028}'
        || c == '\u{2029}' || c == '\u{202f}' || c == '\u{205f}' || c == '\u{3000}'
}

/// Whether `c` ends a field.
pub fn is_separator(c: char, into_lines: bool) -> (b: bool)
    ensures
        b == separates(c, into_lines),
{
    if into_lines {
        c == '\n'
    } else {
        is_blank_char(c)
    }
}

/// Splits the characters of `chars` from index `from` up to index `to` at
/// every separator.
pub fn split(chars: &Vec<char>, from: usize, to: usize, into_lines: bool) -> (parts: Vec<
    Vec<char>,
>)
    requires
        from <= to <= chars@.len(),
    ensures
        texts(parts@) == fields(chars@.subrange(from as int, to as int), into_lines),
{
    let ghost s = chars@.subrange(from as int, to as int);
    let mut parts: Vec<Vec<char>> = Vec::new();
    let mut current: Vec<char> = Vec::new();
    let mut i: usize = from;
    while i < to
        invariant
            from <= i <= to <= chars.len(),
            s == chars@.subrange(from as int, to as int),
            texts(parts@).push(current@) == fields(s.take(i - from), into_lines),
        decreases to - i,
    {
        let c = chars[i];
        proof {
            assert(s.take(i + 1 - from).drop_last() =~= s.take(i - from));
            assert(s.take(i + 1 - from).last() == c);
        }
        let ghost before = texts(parts@).push(current@);
        if is_separator(c, into_lines) {
            parts.push(current);
            current = Vec::new();
            assert(texts(parts@).push(current@) =~= before.push(Seq::empty()));
        } else {
            current.push(c);
            assert(texts(parts@).push(current@) =~= before.drop_last().push(before.last().push(c)));
        }
        i += 1;
    }
    proof {
        assert(s.take(to - from) =~= s);
    }
    let ghost before = texts(parts@).push(current@);
    parts.push(current);
    assert(texts(parts@) =~= before);
    parts
}

/// Where the trimmed text begins and ends in `chars`.
pub fn trim_bounds(chars: &Vec<char>) -> (bounds: (usize, usize))
    ensures
        bounds.0 <= bounds.1 <= chars@.len(),
        chars@.subrange(bounds.0 as int, bounds.1 as int) == trimmed(chars@),
{
    let mut from: usize = 0;
    proof {
        assert(chars@.skip(0) =~= chars@);
    }
    while from < chars.len() && (is_blank_char(chars[from]) || chars[from] == '\n')
        invariant
            from <= chars.len(),
            leading_space(chars@) == from + leading_space(chars@.skip(from as int)),
        decreases chars.len() - from,
    {
        proof {
            assert(chars@.skip(from as int).drop_first() =~= chars@.skip(from + 1));
        }
        from += 1;
    }
    let ghost rest = chars@.skip(from as int);
    let mut to: usize = chars.len();
    proof {
        assert(rest.take(to - from) =~= rest);
    }
    while to > from && (is_blank_char(chars[to - 1]) || chars[to - 1] == '\n')
        invariant
            from <= to <= chars.len(),
            rest == chars@.skip(from as int),
            trailing_space(rest) == (chars.len() - to) + trailing_space(rest.take(to - from)),
        decreases to,
    {
        proof {
            assert(rest.take(to - from).drop_last() =~= rest.take(to - 1 - from));
            assert(rest.take(to - from).last() == chars@[to - 1]);
        }
        to -= 1;
    }
    proof {
        assert(from == leading_space(chars@));
        assert(trailing_space(rest) == chars.len() - to) by {
            if to > from {
                assert(rest.take(to - from).last() == chars@[to - 1]);
            }
        }
        assert(chars@.subrange(from as int, to as int) =~= rest.take(rest.len() - trailing_space(
            rest,
        )));
    }
    (from, to)
}

/// The tokens of `line`, in their order.
pub fn words_of_line(line: &Vec<char>) -> (words: Vec<Vec<char>>)
    ensures
        texts(words@) == words_in(fields(line@, false)),
{
    let mut words: Vec<Vec<char>> = Vec::new();
    let mut current: Vec<char> = Vec::new();
    let mut i: usize = 0;
    while i < line.len()
        invariant
            i <= line.len(),
            texts(words@) == words_in(fields(line@.take(i as int), false).drop_last()),
            current@ == fields(line@.take(i as int), false).last(),
            fields(line@.take(i as int), false).len() > 0,
        decreases line.len() - i,
    {
        let c = line[i];
        let ghost before = fields(line@.take(i as int), false);
        proof {
            assert(line@.take(i + 1).drop_last() =~= line@.take(i as int));
            assert(line@.take(i + 1).last() == c);
        }
        if is_blank_char(c) {
            let ghost had = texts(words@);
            if current.len() > 0 {
                words.push(current);
                assert(texts(words@) =~= had.push(before.last()));
            }
            current = Vec::new();
            proof {
                assert(before.push(Seq::empty()).drop_last() =~= before);
            }
        } else {
            current.push(c);
            proof {
                let after = before.drop_last().push(before.last().push(c));
                assert(after.drop_last() =~= before.drop_last());
            }
        }
        i += 1;
    }
    proof {
        assert(line@.take(line@.len() as int) =~= line@);
    }
    if current.len() > 0 {
        let ghost had = texts(words@);
        words.push(current);
        assert(texts(words@) =~= had.push(fields(line@, false).last()));
    }
    words
}

/// The tokens of `text`, row by row.
pub fn words_of_text(text: &str) -> (words: Vec<Vec<Vec<char>>>)
    ensures
        words_view(words@) == words_of(text@),
{
    let chars = chars_of(text);
    let bounds = trim_bounds(&chars);
    let lines = split(&chars, bounds.0, bounds.1, true);
    let mut words: Vec<Vec<Vec<char>>> = Vec::new();
    let mut y: usize = 0;
    while y < lines.len()
        invariant
            y <= lines.len(),
            texts(lines@) == lines_of(text@),
            words@.len() == y,
            forall|k: int|
                0 <= k < y ==> texts((#[trigger] words@[k])@) == words_in(
                    fields(lines_of(text@)[k], false),
                ),
        decreases lines.len() - y,
    {
        proof {
            assert(texts(lines@)[y as int] == lines@[y as int]@);
        }
        words.push(words_of_line(&lines[y]));
        y += 1;
    }
    proof {
        assert(texts(lines@).len() == lines@.len());
        assert(words_view(words@) =~= words_of(text@));
    }
    words
}

/// The first token of `text` that is not a known one, reading row by
/// row; `None` if every token is known.
pub fn unrecognized_item(text: &str) -> (item: Option<Vec<char>>)
    ensures
        match item {
            Some(token) => exists|y: int, x: int|
                first_unknown_at(text@, y, x) && words_of(text@)[y][x] == token@,
            None => all_known(grid_of(text@)),
        },
{
    let words = words_of_text(text);
    let ghost ws = words_of(text@);
    let mut y: usize = 0;
    while y < words.len()
        invariant
            y <= words.len(),
            ws == words_of(text@),
            words_view(words@) == ws,
            forall|j: int, i: int| j < y ==> !unknown_at(text@, j, i),
        decreases words.len() - y,
    {
        let row = &words[y];
        assert(ws[y as int] == texts(row@));
        let mut x: usize = 0;
        while x < row.len()
            invariant
                x <= row.len(),
                y < words.len(),
                ws == words_of(text@),
                words_view(words@) == ws,
                ws[y as int] == texts(row@),
                forall|j: int, i: int| (j < y || (j == y && i < x)) ==> !unknown_at(text@, j, i),
            decreases row.len() - x,
        {
            assert(ws[y as int][x as int] == row@[x as int]@);
            if parse_tile(&row[x]).is_none() {
                let token = copy_chars(&row[x]);
                assert(first_unknown_at(text@, y as int, x as int));
                return Some(token);
            }
            x += 1;
        }
        y += 1;
    }
    proof {
        assert forall|j: int, i: int|
            0 <= j < grid_of(text@).len() && 0 <= i < grid_of(text@)[j].len() implies (
        #[trigger] grid_of(text@)[j][i]) is Some by {
            assert(!unknown_at(text@, j, i));
        }
    }
    None
}

/// A copy of `chars`.
pub fn copy_chars(chars: &Vec<char>) -> (copy: Vec<char>)
    ensures
        copy@ == chars@,
{
    let mut copy: Vec<char> = Vec::new();
    let mut i: usize = 0;
    while i < chars.len()
        invariant
            i <= chars.len(),
            copy@ == chars@.take(i as int),
        decreases chars.len() - i,
    {
        copy.push(chars[i]);
        proof {
            assert(chars@.take(i + 1) =~= chars@.take(i as int).push(chars@[i as int]));
        }
        i += 1;
    }
    proof {
        assert(chars@.take(chars@.len() as int) =~= chars@);
    }
    copy
}

/// Whether `text` has at most 256 rows of at most 256 tokens.
pub fn level_fits(text: &str) -> (ok: bool)
    ensures
        ok == fits(grid_of(text@)),
{
    let words = words_of_text(text);
    let ghost g = grid_of(text@);
    if words.len() > 256 {
        return false;
    }
    let mut y: usize = 0;
    while y < words.len()
        invariant
            y <= words.len(),
            g == grid_of(text@),
            words_view(words@) == words_of(text@),
            g.len() <= 256,
            forall|k: int| 0 <= k < y ==> (#[trigger] g[k]).len() <= 256,
        decreases words.len() - y,
    {
        assert(words_of(text@)[y as int] == texts(words@[y as int]@));
        if words[y].len() > 256 {
            assert(g[y as int].len() > 256);
            return false;
        }
        y += 1;
    }
    true
}

/// Whether `text` is a level.
pub fn is_level_text(text: &str) -> (ok: bool)
    ensures
        ok == is_level(text@),
{
    match unrecognized_item(text) {
        Some(token) => {
            proof {
                let (y, x) = choose|y: int, x: int|
                    first_unknown_at(text@, y, x) && words_of(text@)[y][x] == token@;
                assert(unknown_at(text@, y, x));
                assert(grid_of(text@)[y][x] is None);
            }
            false
        },
        None => level_fits(text),
    }
}

/// The tiles of the level that `text` describes.
pub fn parse_level(text: &str) -> (level: Vec<Vec<Tile>>)
    requires
        is_level(text@),
    ensures
        level_view(level@) == tiles_of(grid_of(text@)),
{
    let words = words_of_text(text);
    let ghost g = grid_of(text@);
    let ghost ws = words_of(text@);
    let mut level: Vec<Vec<Tile>> = Vec::new();
    let mut y: usize = 0;
    while y < words.len()
        invariant
            y <= words.len(),
            g == grid_of(text@),
            ws == words_of(text@),
            words_view(words@) == ws,
            all_known(g),
            level@.len() == y,
            forall|k: int|
                0 <= k < y ==> (#[trigger] level@[k])@ == Seq::new(
                    g[k].len(),
                    |x: int| g[k][x]->0,
                ),
        decreases words.len() - y,
    {
        let row = &words[y];
        assert(ws[y as int] == texts(row@));
        let mut tiles: Vec<Tile> = Vec::new();
        let mut x: usize = 0;
        while x < row.len()
            invariant
                x <= row.len(),
                y < words.len(),
                g == grid_of(text@),
                ws == words_of(text@),
                words_view(words@) == ws,
                ws[y as int] == texts(row@),
                all_known(g),
                tiles@.len() == x,
                forall|j: int| 0 <= j < x ==> (#[trigger] tiles@[j]) == g[y as int][j]->0,
            decreases row.len() - x,
        {
            assert(ws[y as int][x as int] == row@[x as int]@);
            assert(g[y as int][x as int] is Some);
            match parse_tile(&row[x]) {
                Some(tile) => tiles.push(tile),
                None => {},
            }
            x += 1;
        }
        assert(tiles@ =~= Seq::new(g[y as int].len(), |x: int| g[y as int][x]->0));
        level.push(tiles);
        y += 1;
    }
    assert(level_view(level@) =~= tiles_of(g));
    level
}

/// The entities that `tile` puts on the cell of `position`.
pub open spec fn tile_entities(tile: Tile, position: Position) -> Seq<EntityState> {
    match tile {
        Tile::Floor => seq![floor_on(position)],
        Tile::Wall => seq![floor_on(position), wall_on(position)],
        Tile::Player => seq![floor_on(position), player_on(position)],
        Tile::Box(colour) => seq![floor_on(position), box_on(position, colour)],
        Tile::BoxSpot(colour) => seq![floor_on(position), box_spot_on(position, colour)],
        Tile::Nothing => Seq::empty(),
    }
}

/// The position that a level hands to the entities of cell `(x, y)`; each
/// kind of entity picks its own layer.
pub open spec fn cell_position(x: int, y: int) -> Position {
    Position { x: x as u8, y: y as u8, z: 0 }
}

/// The entities of the first `upto` tiles of row `y`, in the order of the
/// tiles.
pub open spec fn row_entities(row: Seq<Tile>, y: int, upto: int) -> Seq<EntityState>
    decreases upto,
{
    if upto <= 0 {
        Seq::empty()
    } else {
        row_entities(row, y, upto - 1) + tile_entities(row[upto - 1], cell_position(upto - 1, y))
    }
}

/// The entities of the first `upto` rows of `level`, row by row.
pub open spec fn level_entities(level: Seq<Seq<Tile>>, upto: int) -> Seq<EntityState>
    decreases upto,
{
    if upto <= 0 {
        Seq::empty()
    } else {
        level_entities(level, upto - 1) + row_entities(
            level[upto - 1],
            upto - 1,
            level[upto - 1].len() as int,
        )
    }
}

/// `w` with the entities `more` behind its own.
pub open spec fn with_entities(w: WorldState, more: Seq<EntityState>) -> WorldState {
    WorldState { entities: w.entities + more, ..w }
}

/// Every movable and every immovable that has a position stands on a cell
/// of a row before `y`, or in row `y` before `x`.
pub open spec fn settled_before(w: WorldState, x: int, y: int) -> bool {
    forall|e: int|
        0 <= e < w.entities.len() && ((#[trigger] w.entities[e]).movable || w.entities[e].immovable)
            ==> (w.entities[e].position matches Some(p) ==> p.y < y || (p.y == y && p.x < x))
}

/// Adds the entities of `tile` on the cell of `position`.
pub fn create_tile(world: &mut World, tile: Tile, position: Position)
    ensures
        final(world)@ == with_entities(old(world)@, tile_entities(tile, position)),
        old(world)@.well_formed() && !old(world)@.has_movable(position.x as int, position.y as int)
            && !old(world)@.has_immovable(position.x as int, position.y as int)
            ==> final(world)@.well_formed(),
        old(world)@.well_formed() && settled_before(
            old(world)@,
            position.x as int,
            position.y as int,
        ) ==> final(world)@.well_formed() && settled_before(
            final(world)@,
            position.x + 1,
            position.y as int,
        ),
{
    let ghost w = world@;
    let ghost (x, y) = (position.x as int, position.y as int);
    proof {
        if settled_before(w, x, y) {
            assert(!w.has_movable(x, y)) by {
                if w.has_movable(x, y) {
                    let e = choose|e: int| w.movable_at(e, x, y);
                    let _ = w.entities[e];
                }
            }
            assert(!w.has_immovable(x, y)) by {
                if w.has_immovable(x, y) {
                    let e = choose|e: int| w.immovable_at(e, x, y);
                    let _ = w.entities[e];
                }
            }
        }
    }
    match tile {
        Tile::Nothing => {
            assert(world@.entities =~= w.entities + tile_entities(tile, position));
        },
        _ => {
            create_floor(world, position);
            let ghost v = world@;
            proof {
                if w.well_formed() && !w.has_movable(x, y) && !w.has_immovable(x, y) {
                    assert(!v.has_movable(x, y)) by {
                        if v.has_movable(x, y) {
                            let e = choose|e: int| v.movable_at(e, x, y);
                            assert(w.movable_at(e, x, y));
                        }
                    }
                    assert(!v.has_immovable(x, y)) by {
                        if v.has_immovable(x, y) {
                            let e = choose|e: int| v.immovable_at(e, x, y);
                            assert(w.immovable_at(e, x, y));
                        }
                    }
                }
            }
            match tile {
                Tile::Wall => {
                    create_wall(world, position);
                },
                Tile::Player => {
                    create_player(world, position);
                },
                Tile::Box(colour) => {
                    create_box(world, position, colour);
                },
                Tile::BoxSpot(colour) => {
                    create_box_spot(world, position, colour);
                },
                _ => {},
            }
            assert(world@.entities =~= w.entities + tile_entities(tile, position));
        },
    }
    proof {
        if w.well_formed() && settled_before(w, x, y) {
            assert forall|e: int|
                0 <= e < world@.entities.len() && ((#[trigger] world@.entities[e]).movable
                    || world@.entities[e].immovable) implies (world@.entities[e].position matches Some(
                p,
            ) ==> p.y < y || (p.y == y && p.x < x + 1)) by {
                if e < w.entities.len() {
                    let _ = w.entities[e];
                }
            }
        }
    }
}

/// Adds the entities of `level` to `world`, row by row.
pub fn spawn_level(world: &mut World, level: &Vec<Vec<Tile>>)
    requires
        fits(level_view(level@)),
    ensures
        final(world)@ == with_entities(
            old(world)@,
            level_entities(level_view(level@), level@.len() as int),
        ),
        old(world)@.entities.len() == 0 ==> final(world)@.well_formed(),
{
    let ghost w = world@;
    let ghost lv = level_view(level@);
    let ghost empty = w.entities.len() == 0;
    let mut y: usize = 0;
    proof {
        assert(world@.entities =~= w.entities + level_entities(lv, 0));
    }
    while y < level.len()
        invariant
            y <= level.len(),
            lv == level_view(level@),
            fits(lv),
            world@ == with_entities(w, level_entities(lv, y as int)),
            empty ==> world@.well_formed() && settled_before(world@, 0, y as int),
        decreases level.len() - y,
    {
        let row = &level[y];
        assert(lv[y as int] == row@);
        let ghost v = world@;
        let mut x: usize = 0;
        proof {
            assert(world@.entities =~= v.entities + row_entities(row@, y as int, 0));
        }
        while x < row.len()
            invariant
                x <= row.len(),
                row@.len() <= 256,
                y < 256,
                world@ == with_entities(v, row_entities(row@, y as int, x as int)),
                empty ==> world@.well_formed() && settled_before(world@, x as int, y as int),
            decreases row.len() - x,
        {
            let ghost u = world@;
            let position = Position { x: x as u8, y: y as u8, z: 0 };
            create_tile(world, row[x], position);
            proof {
                assert(position == cell_position(x as int, y as int));
                assert(world@.entities =~= v.entities + row_entities(row@, y as int, x + 1));
            }
            x += 1;
        }
        proof {
            assert(world@.entities =~= w.entities + level_entities(lv, y + 1));
            if empty {
                assert forall|e: int|
                    0 <= e < world@.entities.len() && ((#[trigger] world@.entities[e]).movable
                        || world@.entities[e].immovable) implies (
                world@.entities[e].position matches Some(p) ==> p.y < y + 1 || (p.y == y + 1 && p.x
                    < 0)) by {}
            }
        }
        y += 1;
    }
}

/// The world after the level that `text` describes has been loaded: the
/// entities of the level stand behind those that were there.
pub open spec fn loaded(w: WorldState, text: Seq<char>) -> WorldState {
    with_entities(w, level_entities(tiles_of(grid_of(text)), grid_of(text).len() as int))
}

/// Loads the level that `map_string` describes into `world`. Loaded into
/// a world without entities, a level gives a well-formed grid.
pub fn load_map(world: &mut World, map_string: String)
    requires
        is_level(map_string@),
    ensures
        final(world)@ == loaded(old(world)@, map_string@),
        old(world)@.entities.len() == 0 ==> final(world)@.well_formed(),
{
    let level = parse_level(map_string.as_str());
    assert(level_view(level@).len() == grid_of(map_string@).len());
    spawn_level(world, &level);
}

/// The level that a new game starts with.
pub const MAP: &'static str = "
    N N W W W W W W
    W W W . . . . W
    W . . . BB . . W
    W . . RB . . . W
    W . P . . . . W
    W . . . . RS . W
    W . . BS . . . W
    W . . . . . . W
    W W W W W W W W
    ";

/// Loads the level that a new game starts with.
pub fn initialize_level(world: &mut World)
    requires
        is_level(MAP@),
    ensures
        final(world)@ == loaded(old(world)@, MAP@),
        old(world)@.entities.len() == 0 ==> final(world)@.well_formed(),
{
    load_map(world, String::from_str(MAP))
}

/// The greatest column of the fixed map.
pub const MAP_WIDTH: u8 = 10;

/// The greatest row of the fixed map.
pub const MAP_HEIGHT: u8 = 10;

/// The grid column of the fixed map's first column.
pub const MAP_OFFSET_X: u8 = 4;

/// The grid row of the fixed map's first row.
pub const MAP_OFFSET_Y: u8 = 3;

/// The tile in column `x`, row `y` of the fixed map: walls all round, a
/// player, a red box and a red box spot inside, floor elsewhere.
pub open spec fn fixed_tile(x: int, y: int) -> Tile {
    if x == 0 || x == MAP_WIDTH || y == 0 || y == MAP_HEIGHT {
        Tile::Wall
    } else if x == 5 && y == 5 {
        Tile::Player
    } else if x == 6 && y == 5 {
        Tile::Box(BoxColour::Red)
    } else if x == 8 && y == 2 {
        Tile::BoxSpot(BoxColour::Red)
    } else {
        Tile::Floor
    }
}

/// The entities of the first `cells` cells of the fixed map, counted
/// column by column and down each column.
pub open spec fn fixed_map_cells(cells: int) -> Seq<EntityState>
    decreases cells,
{
    if cells <= 0 {
        Seq::empty()
    } else {
        let x = (cells - 1) / (MAP_HEIGHT + 1);
        let y = (cells - 1) % (MAP_HEIGHT + 1);
        fixed_map_cells(cells - 1) + tile_entities(
            fixed_tile(x, y),
            cell_position(x + MAP_OFFSET_X, y + MAP_OFFSET_Y),
        )
    }
}

/// The entities of the fixed map.
pub open spec fn fixed_map_entities() -> Seq<EntityState> {
    fixed_map_cells((MAP_WIDTH + 1) * (MAP_HEIGHT + 1))
}

/// Every movable and every immovable that has a position stands in a
/// column before `x`, or in column `x` above row `y`.
pub open spec fn settled_before_in_column(w: WorldState, x: int, y: int) -> bool {
    forall|e: int|
        0 <= e < w.entities.len() && ((#[trigger] w.entities[e]).movable || w.entities[e].immovable)
            ==> (w.entities[e].position matches Some(p) ==> p.x < x || (p.x == x && p.y < y))
}

/// The tile in column `x`, row `y` of the fixed map.
pub fn fixed_tile_at(x: u8, y: u8) -> (tile: Tile)
    ensures
        tile == fixed_tile(x as int, y as int),
{
    if x == 0 || x == MAP_WIDTH || y == 0 || y == MAP_HEIGHT {
        Tile::Wall
    } else if x == 5 && y == 5 {
        Tile::Player
    } else if x == 6 && y == 5 {
        Tile::Box(BoxColour::Red)
    } else if x == 8 && y == 2 {
        Tile::BoxSpot(BoxColour::Red)
    } else {
        Tile::Floor
    }
}

/// Adds the fixed map to `world`, column by column. Added to a world
/// without entities, it gives a well-formed grid.
pub fn create_map(world: &mut World)
    ensures
        final(world)@ == with_entities(old(world)@, fixed_map_entities()),
        old(world)@.entities.len() == 0 ==> final(world)@.well_formed(),
{
    let ghost w = world@;
    let ghost empty = w.entities.len() == 0;
    let mut x: u8 = 0;
    proof {
        assert(world@.entities =~= w.entities + fixed_map_cells(0));
    }
    while x <= MAP_WIDTH
        invariant
            x <= MAP_WIDTH + 1,
            world@ == with_entities(w, fixed_map_cells(x * (MAP_HEIGHT + 1))),
            empty ==> world@.well_formed() && settled_before_in_column(
                world@,
                x + MAP_OFFSET_X,
                MAP_OFFSET_Y as int,
            ),
        decreases MAP_WIDTH + 1 - x,
    {
        let mut y: u8 = 0;
        while y <= MAP_HEIGHT
            invariant
                x <= MAP_WIDTH,
                y <= MAP_HEIGHT + 1,
                world@ == with_entities(w, fixed_map_cells(x * (MAP_HEIGHT + 1) + y)),
                empty ==> world@.well_formed() && settled_before_in_column(
                    world@,
                    x + MAP_OFFSET_X,
                    y + MAP_OFFSET_Y,
                ),
            decreases MAP_HEIGHT + 1 - y,
        {
            let ghost v = world@;
            let position = Position { x: x + MAP_OFFSET_X, y: y + MAP_OFFSET_Y, z: 0 };
            proof {
                let cells = x * (MAP_HEIGHT + 1) + y + 1;
                assert(MAP_HEIGHT + 1 == 11);
                assert(x * (MAP_HEIGHT + 1) == x * 11) by (nonlinear_arith)
                    requires
                        MAP_HEIGHT + 1 == 11,
                ;
                assert((x * 11 + y) / 11 == x && (x * 11 + y) % 11 == y);
                assert((cells - 1) / (MAP_HEIGHT + 1) == x && (cells - 1) % (MAP_HEIGHT + 1) == y);
                assert(position == cell_position(x + MAP_OFFSET_X, y + MAP_OFFSET_Y));
                if empty {
                    assert(!v.has_movable(position.x as int, position.y as int)) by {
                        if v.has_movable(position.x as int, position.y as int) {
                            let e = choose|e: int|
                                v.movable_at(e, position.x as int, position.y as int);
                            let _ = v.entities[e];
                        }
                    }
                    assert(!v.has_immovable(position.x as int, position.y as int)) by {
                        if v.has_immovable(position.x as int, position.y as int) {
                            let e = choose|e: int|
                                v.immovable_at(e, position.x as int, position.y as int);
                            let _ = v.entities[e];
                        }
                    }
                }
            }
            create_tile(world, fixed_tile_at(x, y), position);
            proof {
                assert(world@.entities =~= w.entities + fixed_map_cells(
                    x * (MAP_HEIGHT + 1) + y + 1,
                ));
                if empty {
                    assert forall|e: int|
                        0 <= e < world@.entities.len() && ((#[trigger] world@.entities[e]).movable
                            || world@.entities[e].immovable) implies (
                    world@.entities[e].position matches Some(p) ==> p.x < x + MAP_OFFSET_X || (p.x
                        == x + MAP_OFFSET_X && p.y < y + 1 + MAP_OFFSET_Y)) by {
                        if e < v.entities.len() {
                            let _ = v.entities[e];
                        }
                    }
                }
            }
            y += 1;
        }
        proof {
            assert(x * (MAP_HEIGHT + 1) + (MAP_HEIGHT + 1) == (x + 1) * (MAP_HEIGHT + 1))
                by (nonlinear_arith);
            if empty {
                assert forall|e: int|
                    0 <= e < world@.entities.len() && ((#[trigger] world@.entities[e]).movable
                        || world@.entities[e].immovable) implies (
                world@.entities[e].position matches Some(p) ==> p.x < x + 1 + MAP_OFFSET_X || (p.x
                    == x + 1 + MAP_OFFSET_X && p.y < MAP_OFFSET_Y)) by {}
            }
        }
        x += 1;
    }
}

} // verus!
