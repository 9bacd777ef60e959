//! What a printable lyric sheet shows: its title, and for each line that is
//! not left out the texts of its block and their colours.
use vstd::prelude::*;

use crate::lyrics::{lines_view, LineModel, LyricLine};
use crate::text::{chars_of, is_blank, push_all, string_from_chars, trim, trimmed};

verus! {

/// Options of a printable lyric sheet.
#[derive(Clone, Debug)]
pub struct PdfOptions {
    /// The sheet's title; a missing or blank title prints as 歌词.
    pub title: Option<String>,
    pub render_translation: bool,
    pub render_background_vocal: bool,
    /// Indices of lines that the sheet leaves out.
    pub excluded_lines: Vec<usize>,
    /// Print every text in black.
    pub speed_printer: bool,
}

impl Default for PdfOptions {
    fn default() -> (r: Self)
        ensures
            r.title is None,
            r.render_translation,
            r.render_background_vocal,
            r.excluded_lines@.len() == 0,
            !r.speed_printer,
    {
        PdfOptions {
            title: None,
            render_translation: true,
            render_background_vocal: true,
            excluded_lines: Vec::new(),
            speed_printer: false,
        }
    }
}

/// The title of a sheet: the given title trimmed, or 歌词 where it is missing or blank.
pub open spec fn sheet_title(title: Option<Seq<char>>) -> Seq<char> {
    match title {
        Some(t) => if trim(t).len() > 0 {
            trim(t)
        } else {
            "歌词"@
        },
        None => "歌词"@,
    }
}

/// The title printed on every page of the sheet.
pub fn pdf_title(options: &PdfOptions) -> (r: String)
    ensures
        r@ == sheet_title(crate::lyrics::opt_text(options.title)),
{
    match &options.title {
        Some(t) => {
            let tt = trimmed(&chars_of(t.as_str()));
            if tt.len() > 0 {
                return string_from_chars(&tt);
            }
        },
        None => {},
    }
    let fallback = chars_of("歌词");
    string_from_chars(&fallback)
}

/// An RGB colour.
#[derive(Clone, Copy, Debug, PartialEq, Eq, Structural)]
pub struct Rgb {
    pub red: u8,
    pub green: u8,
    pub blue: u8,
}

/// The colours of the main text, the translations and the background vocals:
/// all black for a speed printer, else dark, mid and dark-mid greys.
pub fn text_colors(speed_printer: bool) -> (r: (Rgb, Rgb, Rgb))
    ensures
        speed_printer ==> r == (
            Rgb { red: 0, green: 0, blue: 0 },
            Rgb { red: 0, green: 0, blue: 0 },
            Rgb { red: 0, green: 0, blue: 0 },
        ),
        !speed_printer ==> r == (
            Rgb { red: 28, green: 28, blue: 32 },
            Rgb { red: 105, green: 105, blue: 112 },
            Rgb { red: 76, green: 76, blue: 84 },
        ),
{
    if speed_printer {
        let black = Rgb { red: 0, green: 0, blue: 0 };
        (black, black, black)
    } else {
        (
            Rgb { red: 28, green: 28, blue: 32 },
            Rgb { red: 105, green: 105, blue: 112 },
            Rgb { red: 76, green: 76, blue: 84 },
        )
    }
}

/// The texts of one printed line block.
#[derive(Clone, Debug, PartialEq, Eq)]
pub struct BlockText {
    pub main: String,
    pub translation: Option<String>,
    pub background: Option<String>,
    pub background_translation: Option<String>,
    /// Duet lines are set flush right.
    pub right_aligned: bool,
}

/// The mathematical value of a printed block.
pub struct BlockModel {
    pub main: Seq<char>,
    pub translation: Option<Seq<char>>,
    pub background: Option<Seq<char>>,
    pub background_translation: Option<Seq<char>>,
    pub right_aligned: bool,
}

impl View for BlockText {
    type V = BlockModel;

    open spec fn view(&self) -> BlockModel {
        BlockModel {
            main: self.main@,
            translation: crate::lyrics::opt_text(self.translation),
            background: crate::lyrics::opt_text(self.background),
            background_translation: crate::lyrics::opt_text(self.background_translation),
            right_aligned: self.right_aligned,
        }
    }
}

/// A text that prints: trimmed, where it has more than white space.
pub open spec fn printed(t: Option<Seq<char>>) -> Option<Seq<char>> {
    match t {
        Some(s) => if trim(s).len() > 0 {
            Some(trim(s))
        } else {
            None
        },
        None => None,
    }
}

/// The block of a line: its trimmed text; its translation where translations
/// print; its background vocal, marked 伴唱, where background vocals print,
/// with the vocal's translation where translations print too.
pub open spec fn block_of(line: LineModel, render_translation: bool, render_background: bool) -> BlockModel {
    BlockModel {
        main: trim(line.text),
        translation: if render_translation {
            printed(line.translation)
        } else {
            None
        },
        background: match line.background_vocal {
            Some(b) => if render_background {
                Some("伴唱 · "@ + trim(b.text))
            } else {
                None
            },
            None => None,
        },
        background_translation: match line.background_vocal {
            Some(b) => if render_background && render_translation {
                printed(b.translation)
            } else {
                None
            },
            None => None,
        },
        right_aligned: line.is_duet,
    }
}

/// Whether line `i` prints: it is not left out and has more than white space.
pub open spec fn line_prints(line: LineModel, i: int, excluded: Seq<usize>) -> bool {
    !excluded.contains(i as usize) && trim(line.text).len() > 0
}

/// The blocks of the lines that print, in line order.
pub open spec fn sheet_blocks(
    lines: Seq<LineModel>,
    excluded: Seq<usize>,
    render_translation: bool,
    render_background: bool,
) -> Seq<BlockModel>
    decreases lines.len(),
{
    if lines.len() == 0 {
        Seq::empty()
    } else {
        let before = sheet_blocks(lines.drop_last(), excluded, render_translation, render_background);
        let i = lines.len() - 1;
        if line_prints(lines[i], i, excluded) {
            before.push(block_of(lines[i], render_translation, render_background))
        } else {
            before
        }
    }
}

fn printed_exec(t: &Option<String>) -> (r: Option<String>)
    ensures
        crate::lyrics::opt_text(r) == printed(crate::lyrics::opt_text(*t)),
{
    match t {
        Some(s) => {
            let tt = trimmed(&chars_of(s.as_str()));
            if tt.len() > 0 {
                Some(string_from_chars(&tt))
            } else {
                None
            }
        },
        None => None,
    }
}

fn contains_index(excluded: &Vec<usize>, i: usize) -> (b: bool)
    ensures
        b == excluded@.contains(i),
{
    let mut k: usize = 0;
    while k < excluded.len()
        invariant
            k <= excluded.len(),
            forall|j: int| 0 <= j < k ==> excluded@[j] != i,
        decreases excluded.len() - k,
    {
        if excluded[k] == i {
            assert(excluded@[k as int] == i);
            return true;
        }
        k = k + 1;
    }
    false
}

fn block_for(line: &LyricLine, render_translation: bool, render_background: bool) -> (r: BlockText)
    ensures
        r@ == block_of(line@, render_translation, render_background),
{
    let main = string_from_chars(&trimmed(&chars_of(line.text.as_str())));
    let translation = if render_translation {
        printed_exec(&line.translation)
    } else {
        None
    };
    let (background, background_translation) = match &line.background_vocal {
        Some(b) => {
            if render_background {
                let mut text = chars_of("伴唱 · ");
                let bt = trimmed(&chars_of(b.text.as_str()));
                push_all(&mut text, &bt);
                let bg = Some(string_from_chars(&text));
                let bgt = if render_translation {
                    printed_exec(&b.translation)
                } else {
                    None
                };
                (bg, bgt)
            } else {
                (None, None)
            }
        },
        None => (None, None),
    };
    BlockText { main, translation, background, background_translation, right_aligned: line.is_duet }
}

/// The blocks that a lyric sheet prints, one per line that is not left out
/// and has text, in line order.
pub fn line_block_texts(lines: &[LyricLine], options: &PdfOptions) -> (r: Vec<BlockText>)
    ensures
        r@.len() == sheet_blocks(
            lines_view(lines@),
            options.excluded_lines@,
            options.render_translation,
            options.render_background_vocal,
        ).len(),
        forall|k: int|
            0 <= k < r@.len() ==> (#[trigger] r@[k])@ == sheet_blocks(
                lines_view(lines@),
                options.excluded_lines@,
                options.render_translation,
                options.render_background_vocal,
            )[k],
{
    let ghost lv = lines_view(lines@);
    let rt = options.render_translation;
    let rb = options.render_background_vocal;
    let mut out: Vec<BlockText> = Vec::new();
    let mut i: usize = 0;
    while i < lines.len()
        invariant
            i <= lines.len(),
            lv == lines_view(lines@),
            rt == options.render_translation,
            rb == options.render_background_vocal,
            out@.len() == sheet_blocks(lv.take(i as int), options.excluded_lines@, rt, rb).len(),
            forall|k: int|
                0 <= k < out@.len() ==> (#[trigger] out@[k])@ == sheet_blocks(
                    lv.take(i as int),
                    options.excluded_lines@,
                    rt,
                    rb,
                )[k],
        decreases lines.len() - i,
    {
        proof {
            assert(lv.take(i + 1).drop_last() =~= lv.take(i as int));
            assert(lv.take(i + 1)[i as int] == lines@[i as int]@);
        }
        let line = &lines[i];
        let keep = !contains_index(&options.excluded_lines, i) && !is_blank(
            &chars_of(line.text.as_str()),
        );
        if keep {
            let block = block_for(line, rt, rb);
            out.push(block);
        }
        i = i + 1;
    }
    proof {
        assert(lv.take(lines.len() as int) =~= lv);
    }
    out
}

} // verus!
