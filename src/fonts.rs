//! Banner text drawn with FIGlet fonts, with a plain-text fallback.

use vstd::prelude::*;
use vstd::string::{StrSliceExecFns, StringExecFns};

use vstd::utf8::is_ascii_chars;

use crate::text::{
    chars_of, lines_of, parse_i32_at, parse_i32_spec, split_on, split_ranges, trim, trim_range,
};

verus! {

#[verifier::external_type_specification]
#[verifier::external_body]
pub struct ExFIGfont(figlet_rs::FIGfont);

/// Relies on `figlet_rs::FIGfont::convert` and `FIGure`'s `Display`: the
/// banner that the font draws for `text`; `convert` gives none for an empty
/// text.
#[verifier::external_body]
fn figlet_banner(font: &figlet_rs::FIGfont, text: &str) -> (r: Option<String>)
    ensures
        text@.len() == 0 ==> r is None,
{
    match font.convert(text) {
        Some(figure) => Some(figure.to_string()),
        None => None,
    }
}

/// A font file's text that `figlet_rs::FIGfont::from_content` reads without
/// panicking: ASCII only; a header whose space-separated fields give a height
/// of at least one and a non-negative comment count; enough lines for the
/// comments and the 102 required characters; and every line after the
/// comments at least two characters long (a row and its end mark).
pub open spec fn figlet_loadable(s: Seq<char>) -> bool {
    let ls = text_lines_spec(s);
    let f = split_on(trim(ls[0]), ' ');
    let h = parse_i32_spec(f[1])->0 as int;
    let c = parse_i32_spec(f[5])->0 as int;
    &&& is_ascii_chars(s)
    &&& ls.len() >= 1
    &&& f.len() >= 6
    &&& parse_i32_spec(f[1]) is Some
    &&& parse_i32_spec(f[5]) is Some
    &&& h >= 1
    &&& c >= 0
    &&& 1 + c + 102 * h <= i32::MAX
    &&& ls.len() >= 1 + c + 102 * h
    &&& forall|i: int| 1 + c <= i < ls.len() ==> #[trigger] ls[i].len() >= 2
}

/// Whether a font file's text is one that the font parser reads safely.
pub fn figlet_text_ok(content: &str) -> (r: bool)
    ensures
        r == figlet_loadable(content@),
{
    if !content.is_ascii() {
        return false;
    }
    let ls = text_lines(content);
    let ghost sl = text_lines_spec(content@);
    if ls.len() == 0 {
        return false;
    }
    let hv = chars_of(ls[0].as_str());
    proof {
        assert(ls@[0]@ == string_views(ls@)[0]);
    }
    let (a, b) = trim_range(&hv, 0, hv.len());
    proof {
        assert(hv@.subrange(0, hv.len() as int) =~= hv@);
    }
    let f = split_ranges(&hv, a, b, ' ');
    if f.len() < 6 {
        return false;
    }
    let (a1, b1) = f[1];
    let (a5, b5) = f[5];
    proof {
        assert(f@[1] == (a1, b1));
        assert(f@[5] == (a5, b5));
    }
    let h = match parse_i32_at(&hv, a1, b1) {
        Some(h) => h,
        None => {
            return false;
        },
    };
    let c = match parse_i32_at(&hv, a5, b5) {
        Some(c) => c,
        None => {
            return false;
        },
    };
    if h < 1 || c < 0 {
        return false;
    }
    let need: i64 = 1 + c as i64 + 102 * h as i64;
    if need > i32::MAX as i64 || need as usize > ls.len() {
        return false;
    }
    let mut i: usize = (1 + c) as usize;
    proof {
        assert(hv@.subrange(a as int, b as int) == trim(sl[0]));
    }
    while i < ls.len()
        invariant
            figlet_loadable(content@) <==> (forall|k: int|
                1 + c <= k < sl.len() ==> #[trigger] sl[k].len() >= 2),
            string_views(ls@) == sl,
            sl == text_lines_spec(content@),
            1 + c <= i <= ls.len(),
            forall|k: int| 1 + c <= k < i ==> #[trigger] sl[k].len() >= 2,
        decreases ls.len() - i,
    {
        proof {
            assert(ls@[i as int]@ == sl[i as int]);
        }
        if ls[i].as_str().unicode_len() < 2 {
            return false;
        }
        i = i + 1;
    }
    true
}

/// Whether `figlet_rs::FIGfont::from_content` accepts a font file's text.
pub uninterp spec fn figlet_parses(content: Seq<char>) -> bool;

/// Relies on `figlet_rs::FIGfont::from_content`: the font that a FIGlet font
/// file's text describes, or `None` where the parser rejects the text. It
/// indexes, slices and subtracts without checks, so only texts that
/// `figlet_loadable` admits are handed to it.
#[verifier::external_body]
fn figlet_font_from_content(content: &str) -> (r: Option<figlet_rs::FIGfont>)
    requires
        figlet_loadable(content@),
    ensures
        r is Some == figlet_parses(content@),
{
    match figlet_rs::FIGfont::from_content(content) {
        Ok(font) => Some(font),
        Err(_) => None,
    }
}

/// The font that a font file's text describes. Where the file could not be
/// read (`None`), or its text is not a font that can be read, there is no
/// font and the panel falls back to plain text.
pub fn font_from_file_text(content: Option<&str>) -> (r: Option<figlet_rs::FIGfont>)
    ensures
        match content {
            Some(t) => (r is Some <==> (figlet_loadable(t@) && figlet_parses(t@))),
            None => r is None,
        },
{
    match content {
        Some(text) => {
            if figlet_text_ok(text) {
                figlet_font_from_content(text)
            } else {
                None
            }
        },
        None => None,
    }
}

/// The banner for `text`; where the font draws nothing for it, the banner for
/// `ERR`, then for `!`; `None` when the font draws none of them.
pub fn render_figlet_text(font: &figlet_rs::FIGfont, text: &str) -> Option<String> {
    match figlet_banner(font, text) {
        Some(b) => Some(b),
        None => match figlet_banner(font, "ERR") {
            Some(b) => Some(b),
            None => figlet_banner(font, "!"),
        },
    }
}

/// `l` without one trailing carriage return.
pub open spec fn strip_cr(l: Seq<char>) -> Seq<char> {
    if l.len() > 0 && l.last() == '\r' {
        l.drop_last()
    } else {
        l
    }
}

/// The `j`-th line of a text split at newlines into `p`: a piece that a
/// newline ends loses one carriage return before it; the last piece stays as
/// it is.
pub open spec fn line_of_piece(p: Seq<Seq<char>>, j: int) -> Seq<char> {
    if j < p.len() - 1 {
        strip_cr(p[j])
    } else {
        p[j]
    }
}

/// The lines of `s` as `str::lines` yields them: split at newlines, a
/// carriage return dropped before each newline, and no empty line after a
/// final newline.
pub open spec fn text_lines_spec(s: Seq<char>) -> Seq<Seq<char>> {
    let p = lines_of(s);
    let n = if p.last().len() == 0 {
        p.len() - 1
    } else {
        p.len() as int
    };
    Seq::new(n as nat, |j: int| line_of_piece(p, j))
}

/// The views of a sequence of strings.
pub open spec fn string_views(v: Seq<String>) -> Seq<Seq<char>> {
    v.map_values(|s: String| s@)
}

/// The lines of `s`, as `str::lines` yields them.
pub fn text_lines(s: &str) -> (r: Vec<String>)
    ensures
        string_views(r@) == text_lines_spec(s@),
{
    let v = chars_of(s);
    let pieces = split_ranges(&v, 0, v.len(), '\n');
    let ghost p = lines_of(v@);
    proof {
        assert(v@.subrange(0, v.len() as int) =~= v@);
        crate::text::lemma_split_on_nonempty(v@, '\n');
    }
    let last = pieces.len() - 1;
    let (a, b) = pieces[last];
    let n = if a == b {
        last
    } else {
        pieces.len()
    };
    proof {
        assert(pieces@[last as int] == (a, b));
    }
    let mut out: Vec<String> = Vec::new();
    let mut k: usize = 0;
    while k < n
        invariant
            v@ == s@,
            n <= pieces.len(),
            pieces.len() == p.len(),
            p.len() >= 1,
            n == text_lines_spec(s@).len(),
            text_lines_spec(s@) == Seq::new(n as nat, |j: int| line_of_piece(p, j)),
            forall|j: int|
                #![trigger pieces@[j]]
                0 <= j < pieces.len() ==> {
                    &&& pieces[j].0 <= pieces[j].1 <= v.len()
                    &&& v@.subrange(pieces[j].0 as int, pieces[j].1 as int) == p[j]
                },
            k <= n,
            out@.len() == k,
            string_views(out@) == Seq::new(k as nat, |j: int| line_of_piece(p, j)),
        decreases n - k,
    {
        let (lo, hi) = pieces[k];
        proof {
            assert(pieces@[k as int] == (lo, hi));
        }
        let strip = k + 1 < pieces.len() && hi > lo && v[hi - 1] == '\r';
        let end = if strip {
            hi - 1
        } else {
            hi
        };
        proof {
            let l = v@.subrange(lo as int, hi as int);
            if strip {
                assert(l.drop_last() =~= v@.subrange(lo as int, end as int));
            } else {
                assert(l =~= v@.subrange(lo as int, end as int));
            }
        }
        let line = s.substring_char(lo, end).to_owned();
        let ghost before = out@;
        let ghost k0 = k as int;
        proof {
            assert(line@ == line_of_piece(p, k0));
        }
        out.push(line);
        k = k + 1;
        proof {
            let want = Seq::new(k as nat, |j: int| line_of_piece(p, j));
            assert forall|j: int| 0 <= j < k implies string_views(out@)[j] == want[j] by {
                if j < k0 {
                    assert(out@[j] == before[j]);
                    assert(string_views(before)[j] == line_of_piece(p, j));
                }
            }
            assert(string_views(out@) =~= want);
        }
    }
    out
}

/// The lines that a panel shows for `text`: the banner's lines where there is
/// a banner, and `text` itself as one plain line where there is none.
pub fn banner_lines(banner: Option<&str>, text: &str) -> (r: Vec<String>)
    ensures
        string_views(r@) == match banner {
            Some(b) => text_lines_spec(b@),
            None => seq![text@],
        },
{
    match banner {
        Some(b) => text_lines(b),
        None => {
            let mut out: Vec<String> = Vec::new();
            out.push(String::from_str(text));
            proof {
                assert(string_views(out@) =~= seq![text@]);
            }
            out
        },
    }
}

/// The file that holds the font called `name`; an empty name asks for no
/// font.
pub fn font_file_for(name: &str) -> (r: Option<String>)
    ensures
        name@.len() == 0 ==> r is None,
        name@.len() > 0 ==> (r matches Some(p) && p@ == "./fonts/"@ + name@ + ".flf"@),
{
    if name.unicode_len() == 0 {
        None
    } else {
        Some(String::from_str("./fonts/").concat(name).concat(".flf"))
    }
}

} // verus!
