//! The markup of the notifications ("toasts") the application shows, and the
//! default names it offers for new palettes.
use vstd::prelude::*;
use crate::text::{decimal_text, push_decimal, push_str, string_from_chars};
use crate::path::{file_name, file_name_of};

verus! {

broadcast use vstd::string::group_string_axioms;

/// A character as HTML text: `&` and `<` become entities.
pub open spec fn escape_char(c: char) -> Seq<char> {
    if c == '&' {
        "&amp;"@
    } else if c == '<' {
        "&lt;"@
    } else {
        seq![c]
    }
}

/// A text as HTML text: each `&` and `<` replaced by its entity.
pub open spec fn escape_minimal(s: Seq<char>) -> Seq<char>
    decreases s.len(),
{
    if s.len() == 0 {
        Seq::empty()
    } else {
        escape_minimal(s.drop_last()) + escape_char(s.last())
    }
}

/// `html_escape::encode_text_minimal`: the text with `&` written `&amp;` and
/// `<` written `&lt;`, every other character kept (the crate scans bytes, and
/// no byte of a multi-byte character equals either of them).
#[verifier::external_body]
fn encode_text_minimal(s: &str) -> (r: String)
    ensures
        r@ == escape_minimal(s@),
{
    html_escape::encode_text_minimal(s).into_owned()
}

/// The colour of success messages.
pub open spec fn success_green() -> Seq<char> {
    "\"#57e389\""@
}

/// The colour of error messages.
pub open spec fn error_red() -> Seq<char> {
    "\"#c01c28\""@
}

pub open spec fn success_markup_text(verb: Seq<char>, msg: Seq<char>) -> Seq<char> {
    "<span foreground="@ + success_green() + ">"@ + verb + "</span> "@ + escape_minimal(msg)
}

/// A success message: the verb in green, then the escaped message.
pub fn success_toast_markup(verb: &str, msg: &str) -> (s: String)
    ensures
        s@ == success_markup_text(verb@, msg@),
{
    let escaped = encode_text_minimal(msg);
    let mut out: Vec<char> = Vec::new();
    push_str(&mut out, "<span foreground=");
    push_str(&mut out, "\"#57e389\"");
    push_str(&mut out, ">");
    push_str(&mut out, verb);
    push_str(&mut out, "</span> ");
    push_str(&mut out, escaped.as_str());
    assert(out@ =~= success_markup_text(verb@, msg@));
    string_from_chars(&out)
}

pub open spec fn error_markup_text(msg: Seq<char>) -> Seq<char> {
    "<span foreground="@ + error_red() + ">Error!</span> "@ + escape_minimal(msg)
}

/// An error message: "Error!" in red, then the escaped message.
pub fn error_toast_markup(msg: &str) -> (s: String)
    ensures
        s@ == error_markup_text(msg@),
{
    let escaped = encode_text_minimal(msg);
    let mut out: Vec<char> = Vec::new();
    push_str(&mut out, "<span foreground=");
    push_str(&mut out, "\"#c01c28\"");
    push_str(&mut out, ">Error!</span> ");
    push_str(&mut out, escaped.as_str());
    assert(out@ =~= error_markup_text(msg@));
    string_from_chars(&out)
}

pub open spec fn color_markup_text(hex: Seq<char>) -> Seq<char> {
    "<span foreground=\""@ + hex + "\">"@ + hex + "</span>"@
}

fn push_color_markup(out: &mut Vec<char>, hex: &str)
    ensures
        final(out)@ == old(out)@ + color_markup_text(hex@),
{
    push_str(out, "<span foreground=\"");
    push_str(out, hex);
    push_str(out, "\">");
    push_str(out, hex);
    push_str(out, "</span>");
    assert(final(out)@ =~= old(out)@ + color_markup_text(hex@));
}

/// A hex name shown in its own colour.
pub fn color_markup(hex: &str) -> (s: String)
    ensures
        s@ == color_markup_text(hex@),
{
    let mut out: Vec<char> = Vec::new();
    push_color_markup(&mut out, hex);
    assert(out@ =~= color_markup_text(hex@));
    string_from_chars(&out)
}

pub open spec fn added_color_text(hex: Seq<char>, palette: Seq<char>) -> Seq<char> {
    "Added color "@ + color_markup_text(hex) + " to palette «"@ + palette + "»."@
}

/// The message after a colour is added to a palette.
pub fn add_color_toast_text(hex: &str, palette_name: &str) -> (s: String)
    ensures
        s@ == added_color_text(hex@, palette_name@),
{
    let mut out: Vec<char> = Vec::new();
    push_str(&mut out, "Added color ");
    push_color_markup(&mut out, hex);
    push_str(&mut out, " to palette «");
    push_str(&mut out, palette_name);
    push_str(&mut out, "».");
    assert(out@ =~= added_color_text(hex@, palette_name@));
    string_from_chars(&out)
}

pub open spec fn removed_color_text(hex: Seq<char>, palette: Seq<char>) -> Seq<char> {
    "Removed color "@ + color_markup_text(hex) + " from palette «"@ + palette + "»."@
}

/// The message after a colour is removed from a palette.
pub fn remove_color_toast_text(hex: &str, palette_name: &str) -> (s: String)
    ensures
        s@ == removed_color_text(hex@, palette_name@),
{
    let mut out: Vec<char> = Vec::new();
    push_str(&mut out, "Removed color ");
    push_color_markup(&mut out, hex);
    push_str(&mut out, " from palette «");
    push_str(&mut out, palette_name);
    push_str(&mut out, "».");
    assert(out@ =~= removed_color_text(hex@, palette_name@));
    string_from_chars(&out)
}

pub open spec fn copied_color_text(hex: Seq<char>) -> Seq<char> {
    "Copied color "@ + color_markup_text(hex) + " to clipboard!"@
}

/// The message after a hex name is copied to the clipboard.
pub fn copy_color_toast_text(hex: &str) -> (s: String)
    ensures
        s@ == copied_color_text(hex@),
{
    let mut out: Vec<char> = Vec::new();
    push_str(&mut out, "Copied color ");
    push_color_markup(&mut out, hex);
    push_str(&mut out, " to clipboard!");
    assert(out@ =~= copied_color_text(hex@));
    string_from_chars(&out)
}

pub open spec fn opened_image_text(image_name: Seq<char>) -> Seq<char> {
    "<span foreground="@ + success_green() + ">Opened image:</span> "@ + image_name
}

/// The message after the image at `uri` is opened: it names the image by
/// the path's file name.
pub fn open_image_toast_text(uri: &str) -> (s: String)
    requires
        file_name_of(uri@) is Some,
    ensures
        s@ == opened_image_text(file_name_of(uri@).unwrap()),
{
    let image_name = file_name(uri).unwrap();
    let mut out: Vec<char> = Vec::new();
    push_str(&mut out, "<span foreground=");
    push_str(&mut out, "\"#57e389\"");
    push_str(&mut out, ">Opened image:</span> ");
    push_str(&mut out, image_name.as_str());
    assert(out@ =~= opened_image_text(image_name@));
    string_from_chars(&out)
}

pub open spec fn image_error_text(image_name: Seq<char>) -> Seq<char> {
    "Could not open image: "@ + image_name
}

/// The error message when the image at `uri` cannot be opened (shown as an
/// error message, see `error_toast_markup`); it names the image by the
/// path's file name.
pub fn error_image_toast_text(uri: &str) -> (s: String)
    requires
        file_name_of(uri@) is Some,
    ensures
        s@ == image_error_text(file_name_of(uri@).unwrap()),
{
    let image_name = file_name(uri).unwrap();
    let mut out: Vec<char> = Vec::new();
    push_str(&mut out, "Could not open image: ");
    push_str(&mut out, image_name.as_str());
    assert(out@ =~= image_error_text(image_name@));
    string_from_chars(&out)
}

pub open spec fn numbered_palette_text(count: i64) -> Seq<char> {
    "Palette #"@ + decimal_text(count + 1)
}

/// The name offered for a new palette when `count` palettes exist.
pub fn default_palette_name(count: i64) -> (s: String)
    requires
        count < i64::MAX,
    ensures
        s@ == numbered_palette_text(count),
{
    let mut out: Vec<char> = Vec::new();
    push_str(&mut out, "Palette #");
    push_decimal(&mut out, count + 1);
    assert(out@ =~= numbered_palette_text(count));
    string_from_chars(&out)
}

pub open spec fn duplicate_name_text(palette_name: Seq<char>) -> Seq<char> {
    palette_name + " duplicate"@
}

/// The name offered for the copy of a palette.
pub fn duplicate_palette_name(palette_name: &str) -> (s: String)
    ensures
        s@ == duplicate_name_text(palette_name@),
{
    let mut out: Vec<char> = Vec::new();
    push_str(&mut out, palette_name);
    push_str(&mut out, " duplicate");
    assert(out@ =~= duplicate_name_text(palette_name@));
    string_from_chars(&out)
}

/// The name the user typed, or the offered name when the entry is empty.
pub fn chosen_name(entry: String, offered: String) -> (s: String)
    ensures
        s@ == if entry@.len() == 0 {
            offered@
        } else {
            entry@
        },
{
    if entry.as_str().is_empty() {
        offered
    } else {
        entry
    }
}

} // verus!
