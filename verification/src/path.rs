//! From the path that a caller hands over to the path that a model is loaded
//! from.
use vstd::prelude::*;
use vstd::utf8::{decode_utf8, encode_scalar, encode_utf8, valid_utf8};

use crate::output::text_view;

verus! {

/// Why a path cannot be used.
#[derive(Debug, Clone, Copy, PartialEq, Eq, Structural)]
pub enum PathError {
    /// The bytes that the percent escapes stand for are not UTF-8.
    NotUtf8,
}

/// `std::string::FromUtf8Error`, which is only told apart from success.
#[verifier::external_type_specification]
#[verifier::external_body]
pub struct ExFromUtf8Error(std::string::FromUtf8Error);

/// The value of a hexadecimal digit, in either case.
pub open spec fn hex_value(digit: u8) -> Option<u8> {
    if 48 <= digit <= 57 {
        Some((digit - 48) as u8)
    } else if 65 <= digit <= 70 {
        Some((digit - 55) as u8)
    } else if 97 <= digit <= 102 {
        Some((digit - 87) as u8)
    } else {
        None
    }
}

/// A percent sign (37) and two hexadecimal digits stand for one byte; all else
/// stands for itself, a percent sign without two digits too.
pub open spec fn percent_decoded(text: Seq<u8>) -> Seq<u8>
    decreases text.len(),
{
    if text.len() == 0 {
        Seq::empty()
    } else if text.len() >= 3 && text[0] == 37 && hex_value(text[1]) is Some && hex_value(
        text[2],
    ) is Some {
        seq![(16 * hex_value(text[1])->0 + hex_value(text[2])->0) as u8] + percent_decoded(
            text.skip(3),
        )
    } else {
        seq![text[0]] + percent_decoded(text.skip(1))
    }
}

/// Calls `std::str::from_utf8`: the text of bytes that are UTF-8.
#[verifier::external_body]
fn from_utf8(bytes: &[u8]) -> (r: Option<String>)
    ensures
        r is Some <==> valid_utf8(bytes@),
        r matches Some(text) ==> text@ == decode_utf8(bytes@),
{
    match std::str::from_utf8(bytes) {
        Ok(text) => Some(text.to_owned()),
        Err(_) => None,
    }
}

/// Calls `urlencoding::decode`: the text with its percent escapes replaced by
/// the bytes that they stand for, or an error where that is not UTF-8.
#[verifier::external_body]
fn percent_decode(text: &str) -> (r: Result<String, std::string::FromUtf8Error>)
    ensures
        match r {
            Ok(decoded) => {
                &&& valid_utf8(percent_decoded(encode_utf8(text@)))
                &&& decoded@ == decode_utf8(percent_decoded(encode_utf8(text@)))
            },
            Err(_) => !valid_utf8(percent_decoded(encode_utf8(text@))),
        },
{
    match urlencoding::decode(text) {
        Ok(decoded) => Ok(decoded.into_owned()),
        Err(error) => Err(error),
    }
}

/// Where the part behind the last slash begins.
pub open spec fn name_start(path: Seq<char>) -> nat
    decreases path.len(),
{
    if path.len() == 0 || path.last() == '/' {
        path.len()
    } else {
        name_start(path.drop_last())
    }
}

/// The part of a path behind its last slash.
pub open spec fn final_name(path: Seq<char>) -> Seq<char> {
    path.skip(name_start(path) as int)
}

/// A path without what says nothing at its end: slashes, and dots that stand
/// alone behind a slash. The slash of the root goes too.
pub open spec fn trimmed(path: Seq<char>) -> Seq<char>
    decreases path.len(),
{
    let n = path.len() as int;
    if n >= 1 && path[n - 1] == '/' {
        trimmed(path.take(n - 1))
    } else if n >= 2 && path[n - 2] == '/' && path[n - 1] == '.' {
        trimmed(path.take(n - 2))
    } else {
        path
    }
}

/// A letter and a colon in front, which Windows takes for a drive.
pub open spec fn starts_with_drive(text: Seq<char>) -> bool {
    &&& text.len() >= 2
    &&& ('a' <= text[0] <= 'z' || 'A' <= text[0] <= 'Z')
    &&& text[1] == ':'
}

/// Unix and Windows take the path apart alike: it has no backslash and no
/// server in front, and its last part does not start with a drive.
pub open spec fn is_portable(path: Seq<char>) -> bool {
    &&& !path.contains('\\')
    &&& !(path.len() >= 2 && path[0] == '/' && path[1] == '/')
    &&& !starts_with_drive(final_name(trimmed(path)))
}

/// The name of the file at a path, if the path ends in one.
pub open spec fn file_name_of(path: Seq<char>) -> Option<Seq<char>> {
    let name = final_name(trimmed(path));
    if name.len() == 0 || name == seq!['.'] || name == seq!['.', '.'] {
        None
    } else {
        Some(name)
    }
}

/// The text can be appended to a folder: it holds no separator and does not
/// start with a drive.
pub open spec fn is_simple_name(name: Seq<char>) -> bool {
    &&& !name.contains('/')
    &&& !name.contains('\\')
    &&& !starts_with_drive(name)
}

/// The separator of a platform.
pub open spec fn is_separator(separator: char) -> bool {
    separator == '/' || separator == '\\'
}

/// `name` in `folder`. The root, which is written as nothing here, and that of
/// a drive keep their slash; elsewhere the platform's separator is put.
pub open spec fn in_folder(folder: Seq<char>, name: Seq<char>, separator: char) -> Seq<char> {
    if folder.len() == 0 || (folder.len() == 2 && starts_with_drive(folder)) {
        folder + seq!['/'] + name
    } else {
        folder + seq![separator] + name
    }
}

/// `path` with `name` in the place of its file name, or behind it if it has
/// none. The folder loses what says nothing at its end.
pub open spec fn renamed(path: Seq<char>, name: Seq<char>, separator: char) -> Seq<char> {
    let t = trimmed(path);
    let n = name_start(t) as int;
    if file_name_of(path) is Some {
        if n == 0 {
            name
        } else {
            in_folder(trimmed(t.take(n - 1)), name, separator)
        }
    } else if path.len() == 0 || path.last() == '/' {
        path + name
    } else {
        path + seq![separator] + name
    }
}

/// `r` is `path` with `name` in the place of its file name, on Unix or Windows.
pub open spec fn is_renamed(path: Seq<char>, name: Seq<char>, r: Seq<char>) -> bool {
    exists|separator: char| #[trigger]
        is_separator(separator) && r == renamed(path, name, separator)
}

/// `r` is what `std::path::Path::file_name` gives for `path`, on the platform at
/// hand: the rules by which a path is taken apart differ between platforms.
pub uninterp spec fn file_name_gives(path: Seq<char>, r: Option<Seq<char>>) -> bool;

/// `r` is what `std::path::Path::with_file_name` gives for `path` and `name`, on
/// the platform at hand.
pub uninterp spec fn with_file_name_gives(path: Seq<char>, name: Seq<char>, r: Seq<char>) -> bool;

/// The path ends in an ordinary name on Unix and on Windows, though maybe not in
/// the same: it does not end in a separator or a dot, has no server in front and
/// is more than a drive.
pub open spec fn ends_in_name(path: Seq<char>) -> bool {
    &&& path.len() > 0
    &&& !is_separator(path.last())
    &&& path.last() != '.'
    &&& !(path.len() >= 2 && is_separator(path[0]) && is_separator(path[1]))
    &&& !(path.len() == 2 && starts_with_drive(path))
}

/// The last part of the path begins at `k`: behind the last slash, as on Unix, or
/// behind the last slash or backslash or behind a drive, as on Windows.
pub open spec fn begins_last_part(path: Seq<char>, k: int) -> bool {
    &&& 0 <= k < path.len()
    &&& {
        ||| {
            &&& k == 0 || path[k - 1] == '/'
            &&& forall|i: int| k <= i < path.len() ==> path[i] != '/'
        }
        ||| {
            &&& k == 0 || is_separator(path[k - 1]) || (k == 2 && starts_with_drive(path))
            &&& forall|i: int| k <= i < path.len() ==> !is_separator(#[trigger] path[i])
        }
    }
}

/// `name` is the last part of the path, if that is an ordinary name.
pub open spec fn has_last_part(path: Seq<char>, name: Option<Seq<char>>) -> bool {
    ends_in_name(path) ==> exists|k: int| #[trigger]
        begins_last_part(path, k) && name == Some(path.skip(k))
}

/// What lies in front of `k` is nothing, a drive, or a folder and one separator,
/// the folder without a separator or a lone dot at its end.
pub open spec fn follows_plain_folder(path: Seq<char>, k: int) -> bool {
    ||| k == 0
    ||| k == 2 && starts_with_drive(path)
    ||| {
        &&& 0 < k <= path.len()
        &&& is_separator(path[k - 1])
        &&& !(k >= 2 && is_separator(path[k - 2]))
        &&& !(k >= 3 && is_separator(path[k - 3]) && path[k - 2] == '.')
    }
}

/// Where the file name of the path is its part from `k` on, and `name` a beginning
/// of that, `r` is the path up to `k` and `name`; a slash in front may have become
/// a backslash.
pub open spec fn replaces_last_part(path: Seq<char>, name: Seq<char>, r: Seq<char>) -> bool {
    forall|k: int| #[trigger]
        file_name_gives(path, Some(path.skip(k))) && ends_in_name(path) && 0 <= k < path.len()
            && follows_plain_folder(path, k) && name.len() <= path.len() - k && name
            == path.subrange(k, k + name.len()) && (!starts_with_drive(name) || name.contains('\\'))
            ==> {
            ||| r == path.take(k) + name
            ||| k > 0 && path[k - 1] == '/' && r == path.take(k - 1) + seq!['\\'] + name
        }
}

/// Calls `std::path::Path::file_name`: the last part of the path, slashes and
/// lone dots behind it not counted, unless it is the root, `.` or `..`. What is
/// the last part of a path that is not taken apart alike everywhere is up to the
/// platform: it begins behind the last slash, or also behind a backslash or drive.
#[verifier::external_body]
fn file_name(path: &str) -> (r: Option<String>)
    ensures
        file_name_gives(path@, text_view(r)),
        has_last_part(path@, text_view(r)),
        is_portable(path@) ==> text_view(r) == file_name_of(path@),
{
    match std::path::Path::new(path).file_name() {
        Some(name) => Some(name.to_str().unwrap_or_default().to_owned()),
        None => None,
    }
}

/// Calls `std::path::Path::with_file_name`: the path without its last part, and
/// without doubled slashes and lone dots that are then at its end, with the
/// name appended. To a path that has no file name the name is appended as it
/// is. The separator is put where none is, and is the platform's. Of a path that
/// is not taken apart alike everywhere, the part that goes is the one that
/// `Path::file_name` gives.
#[verifier::external_body]
fn with_file_name(path: &str, name: &str) -> (r: String)
    ensures
        with_file_name_gives(path@, name@, r@),
        replaces_last_part(path@, name@, r@),
        is_portable(path@) && is_simple_name(name@) ==> is_renamed(path@, name@, r@),
{
    std::path::Path::new(path).with_file_name(name).to_str().unwrap_or_default().to_owned()
}

/// How many characters of a file name stand in front of its first dot.
pub open spec fn stem_len(name: Seq<char>) -> nat
    decreases name.len(),
{
    if name.len() == 0 || name[0] == '.' {
        0
    } else {
        1 + stem_len(name.skip(1))
    }
}

/// A file name without its extensions: what stands in front of its first dot.
pub open spec fn stem(name: Seq<char>) -> Seq<char> {
    name.take(stem_len(name) as int)
}

proof fn lemma_stem_len(name: Seq<char>, n: int)
    requires
        0 <= n <= name.len(),
        forall|i: int| 0 <= i < n ==> name[i] != '.',
        n < name.len() ==> name[n] == '.',
    ensures
        stem_len(name) == n,
    decreases n,
{
    if n > 0 {
        lemma_stem_len(name.skip(1), n - 1);
    }
}

/// Takes all extensions off a file name.
pub fn file_stem(name: &str) -> (r: String)
    ensures
        r@ == stem(name@),
        r@.len() <= name@.len(),
        r@ == name@.take(r@.len() as int),
        forall|i: int| 0 <= i < r@.len() ==> #[trigger] name@[i] != '.',
        r@.len() < name@.len() ==> name@[r@.len() as int] == '.',
{
    let len: usize = name.unicode_len();
    let mut n: usize = 0;
    while n < len && name.get_char(n) != '.'
        invariant
            n <= len,
            len == name@.len(),
            forall|i: int| 0 <= i < n ==> name@[i] != '.',
        decreases len - n,
    {
        n = n + 1;
    }
    proof {
        lemma_stem_len(name@, n as int);
    }
    name.substring_char(0, n).to_owned()
}

proof fn lemma_name_start(path: Seq<char>)
    ensures
        name_start(path) <= path.len(),
        forall|i: int| name_start(path) <= i < path.len() ==> path[i] != '/',
        name_start(path) > 0 ==> path[name_start(path) - 1] == '/',
    decreases path.len(),
{
    if path.len() > 0 && path.last() != '/' {
        lemma_name_start(path.drop_last());
        assert forall|i: int| name_start(path) <= i < path.len() implies path[i] != '/' by {
            if i < path.len() - 1 {
                assert(path.drop_last()[i] == path[i]);
            }
        }
    }
}

proof fn lemma_stem_is_prefix(name: Seq<char>)
    ensures
        stem_len(name) <= name.len(),
        forall|i: int| 0 <= i < stem_len(name) ==> name[i] != '.',
        stem_len(name) < name.len() ==> name[stem_len(name) as int] == '.',
    decreases name.len(),
{
    if name.len() > 0 && name[0] != '.' {
        let rest = name.skip(1);
        lemma_stem_is_prefix(rest);
        assert forall|i: int| 0 <= i < stem_len(name) implies name[i] != '.' by {
            if i > 0 {
                assert(rest[i - 1] == name[i]);
            }
        }
    }
}

proof fn lemma_trimmed_is_prefix(path: Seq<char>)
    ensures
        trimmed(path).len() <= path.len(),
        trimmed(path) == path.take(trimmed(path).len() as int),
    decreases path.len(),
{
    let n = path.len() as int;
    if n >= 1 && path[n - 1] == '/' {
        lemma_trimmed_is_prefix(path.take(n - 1));
    } else if n >= 2 && path[n - 2] == '/' && path[n - 1] == '.' {
        lemma_trimmed_is_prefix(path.take(n - 2));
    }
    assert(trimmed(path) =~= path.take(trimmed(path).len() as int));
}

/// The stem of a file name holds nothing that could take it out of its folder.
proof fn lemma_stem_is_simple(path: Seq<char>)
    requires
        is_portable(path),
    ensures
        is_simple_name(stem_of(file_name_of(path))),
{
    let t = trimmed(path);
    let name = final_name(t);
    lemma_trimmed_is_prefix(path);
    lemma_name_start(t);
    lemma_stem_is_prefix(name);
    let s = stem(name);
    assert forall|i: int| 0 <= i < s.len() implies s[i] != '/' && s[i] != '\\' by {
        assert(s[i] == name[i]);
        assert(name[i] == t[name_start(t) + i]);
        assert(path.contains(path[name_start(t) + i]));
    }
    if starts_with_drive(s) {
        assert(s[0] == name[0] && s[1] == name[1]);
    }
}

/// The stem of a file name, if there is one.
pub open spec fn stem_of(name: Option<Seq<char>>) -> Seq<char> {
    match name {
        Some(name) => stem(name),
        None => Seq::empty(),
    }
}

/// The path that the model at `path` is loaded from, on a platform with this
/// separator: that of the file without its extensions.
pub open spec fn model_path_by(path: Seq<char>, separator: char) -> Seq<char> {
    renamed(path, stem_of(file_name_of(path)), separator)
}

/// `r` is the path that the model at `path` is loaded from. What the file of a
/// path is, and what a path is with another one, is partly up to the platform.
pub open spec fn is_model_path(path: Seq<char>, r: Seq<char>) -> bool {
    &&& exists|name: Option<Seq<char>>|
        {
            &&& #[trigger] file_name_gives(path, name)
            &&& has_last_part(path, name)
            &&& with_file_name_gives(path, stem_of(name), r)
            &&& replaces_last_part(path, stem_of(name), r)
        }
    &&& is_portable(path) ==> is_renamed(path, stem_of(file_name_of(path)), r)
}

/// Takes all extensions off the file that a path names: the loader appends its
/// own.
pub fn model_path(path: &str) -> (r: String)
    ensures
        is_model_path(path@, r@),
{
    let found: Option<String> = file_name(path);
    let ghost given = text_view(found);
    let name: String = match found {
        Some(name) => name,
        None => String::new(),
    };
    let name_stem: String = file_stem(name.as_str());
    proof {
        if given is None {
            lemma_stem_is_prefix(name@);
            assert(name_stem@ =~= Seq::empty());
        }
        if is_portable(path@) {
            lemma_stem_is_simple(path@);
        }
    }
    let r: String = with_file_name(path, name_stem.as_str());
    assert(file_name_gives(path@, given) && with_file_name_gives(path@, stem_of(given), r@));
    assert(replaces_last_part(path@, stem_of(given), r@));
    r
}

/// The text of a path as it was handed over. Bytes that are not UTF-8 count as
/// none.
pub open spec fn handed_text(raw: Seq<u8>) -> Seq<char> {
    if valid_utf8(raw) {
        decode_utf8(raw)
    } else {
        Seq::empty()
    }
}

/// The bytes of the path that `raw` stands for, its percent escapes replaced.
pub open spec fn handed_path(raw: Seq<u8>) -> Seq<u8> {
    percent_decoded(encode_utf8(handed_text(raw)))
}

/// The path that a model is loaded from, for a path that was handed over with
/// percent escapes and with the extension of the model's file.
pub fn handed_model_path(raw: &[u8]) -> (r: Result<String, PathError>)
    ensures
        match r {
            Ok(path) => valid_utf8(handed_path(raw@)) && is_model_path(
                decode_utf8(handed_path(raw@)),
                path@,
            ),
            Err(error) => error == PathError::NotUtf8 && !valid_utf8(handed_path(raw@)),
        },
        valid_utf8(raw@) ==> (r is Ok <==> valid_utf8(percent_decoded(raw@))),
        valid_utf8(raw@) ==> (r matches Ok(path) ==> is_model_path(
            decode_utf8(percent_decoded(raw@)),
            path@,
        )),
        !valid_utf8(raw@) ==> r is Ok && r->Ok_0@.len() == 0,
{
    proof {
        law_handed_bytes(raw@);
    }
    let text: String = match from_utf8(raw) {
        Some(text) => text,
        None => String::new(),
    };
    match percent_decode(text.as_str()) {
        Ok(path) => Ok(model_path(path.as_str())),
        Err(_) => Err(PathError::NotUtf8),
    }
}

/// Only a percent sign has the byte of one in its encoding.
proof fn lemma_percent_byte(c: char)
    requires
        encode_scalar(c as u32).contains(37u8),
    ensures
        c == '%',
{
    let v = c as u32;
    assert(v <= 0x7f ==> (v & 0x7f) as u8 == v) by (bit_vector);
    assert(0xc0u8 | ((v >> 6) & 0x1f) as u8 != 37) by (bit_vector);
    assert(0xe0u8 | ((v >> 12) & 0x0f) as u8 != 37) by (bit_vector);
    assert(0xf0u8 | ((v >> 18) & 0x7) as u8 != 37) by (bit_vector);
    assert(0x80u8 | (v & 0x3f) as u8 != 37) by (bit_vector);
    assert(0x80u8 | ((v >> 6) & 0x3f) as u8 != 37) by (bit_vector);
    assert(0x80u8 | ((v >> 12) & 0x3f) as u8 != 37) by (bit_vector);
}

proof fn lemma_no_percent_byte(text: Seq<char>)
    requires
        !text.contains('%'),
    ensures
        !encode_utf8(text).contains(37u8),
    decreases text.len(),
{
    if text.len() > 0 {
        let head = encode_scalar(text[0] as u32);
        let rest = text.drop_first();
        assert(text.contains(text[0]));
        assert forall|i: int| 0 <= i < rest.len() implies rest[i] != '%' by {
            assert(text.contains(text[i + 1]));
        }
        lemma_no_percent_byte(rest);
        if head.contains(37u8) {
            lemma_percent_byte(text[0]);
        }
        let all = head + encode_utf8(rest);
        assert forall|i: int| 0 <= i < all.len() implies all[i] != 37 by {
            if i < head.len() {
                assert(head.contains(head[i]));
            } else {
                assert(encode_utf8(rest).contains(encode_utf8(rest)[i - head.len()]));
            }
        }
    }
}

/// A path without a percent sign stands for itself.
pub proof fn law_plain_path_is_literal(text: Seq<char>)
    requires
        !text.contains('%'),
    ensures
        handed_path(encode_utf8(text)) == encode_utf8(text),
        valid_utf8(handed_path(encode_utf8(text))),
        decode_utf8(handed_path(encode_utf8(text))) == text,
{
    lemma_no_percent_byte(text);
    lemma_nothing_to_decode(encode_utf8(text));
    vstd::utf8::encode_utf8_valid_utf8(text);
    vstd::utf8::encode_utf8_decode_utf8(text);
}

proof fn lemma_nothing_to_decode(text: Seq<u8>)
    requires
        !text.contains(37u8),
    ensures
        percent_decoded(text) == text,
    decreases text.len(),
{
    if text.len() > 0 {
        assert(text.contains(text[0]));
        let rest = text.skip(1);
        assert forall|i: int| 0 <= i < rest.len() implies rest[i] != 37 by {
            assert(text.contains(text[i + 1]));
        }
        lemma_nothing_to_decode(rest);
        assert(percent_decoded(text) =~= text);
    } else {
        assert(percent_decoded(text) =~= text);
    }
}

/// Decoding never makes a text longer.
pub proof fn law_decoding_never_grows(text: Seq<u8>)
    ensures
        percent_decoded(text).len() <= text.len(),
    decreases text.len(),
{
    if text.len() > 0 {
        law_decoding_never_grows(text.skip(1));
        if text.len() >= 3 {
            law_decoding_never_grows(text.skip(3));
        }
    }
}

/// A stem has no extension left, and is its own stem.
pub proof fn law_stem_is_final(name: Seq<char>)
    ensures
        !stem(name).contains('.'),
        stem(stem(name)) == stem(name),
{
    lemma_stem_is_prefix(name);
    let s = stem(name);
    assert forall|i: int| 0 <= i < s.len() implies s[i] != '.' by {
        assert(s[i] == name[i]);
    }
    lemma_stem_len(s, s.len() as int);
    assert(stem(s) =~= s);
}

proof fn lemma_name_start_at(path: Seq<char>, n: int)
    requires
        0 <= n <= path.len(),
        forall|i: int| n <= i < path.len() ==> path[i] != '/',
        n > 0 ==> path[n - 1] == '/',
    ensures
        name_start(path) == n,
    decreases path.len(),
{
    if n < path.len() {
        lemma_name_start_at(path.drop_last(), n);
    }
}

/// The folder of a path is written without a doubled slash or a lone dot at its
/// end, so that taking the path apart and putting it together changes nothing.
pub open spec fn folder_is_plain(path: Seq<char>) -> bool {
    let n = name_start(path) as int;
    n > 0 ==> trimmed(path.take(n - 1)) == path.take(n - 1)
}

/// The model of `path.extensions` is loaded from the same path as that of
/// `path`, whatever the extensions are and however many, in a folder or not. It
/// is `path` itself where the folder is plain and the separator a slash.
pub proof fn law_extensions_are_dropped(path: Seq<char>, extensions: Seq<char>, separator: char)
    requires
        is_portable(path),
        final_name(path).len() > 0,
        !final_name(path).contains('.'),
        !extensions.contains('/'),
        !extensions.contains('\\'),
    ensures
        is_portable(path + seq!['.'] + extensions),
        model_path_by(path + seq!['.'] + extensions, separator) == model_path_by(path, separator),
        folder_is_plain(path) ==> model_path_by(path, '/') == path,
        forall|r: Seq<char>| #[trigger]
            is_model_path(path, r) ==> is_renamed(path, final_name(path), r),
        forall|r: Seq<char>| #[trigger]
            is_model_path(path + seq!['.'] + extensions, r) ==> is_renamed(
                path,
                final_name(path),
                r,
            ),
{
    let full = path + seq!['.'] + extensions;
    let n = name_start(path) as int;
    let name = final_name(path);
    let end = path.len() as int;
    lemma_name_start(path);
    assert forall|i: int| 0 <= i < name.len() implies name[i] != '.' && name[i] != '/' by {
        assert(name.contains(name[i]));
        assert(name[i] == path[n + i]);
    }
    assert forall|i: int| end < i < full.len() implies full[i] != '/' && full[i] != '\\' by {
        assert(full[i] == extensions[i - end - 1]);
        assert(extensions.contains(extensions[i - end - 1]));
    }
    assert(path.last() == name.last());
    assert(trimmed(path) == path);
    assert(full[end - 1] == path.last());
    assert(trimmed(full) == full);
    assert forall|i: int| n <= i < full.len() implies full[i] != '/' by {
        if i < end {
            assert(full[i] == path[i]);
        }
    }
    lemma_name_start_at(full, n);
    let full_name = name + seq!['.'] + extensions;
    assert(final_name(full) =~= full_name);
    assert(!full.contains('\\')) by {
        assert forall|i: int| 0 <= i < full.len() implies full[i] != '\\' by {
            if i < end {
                assert(path.contains(path[i]));
            }
        }
    }
    assert(full_name[0] == name[0]);
    lemma_stem_len(full_name, name.len() as int);
    lemma_stem_len(name, name.len() as int);
    assert(stem(full_name) =~= name);
    assert(stem(name) =~= name);
    assert(name[0] != '.');
    if n > 0 {
        assert(full.take(n - 1) =~= path.take(n - 1));
        assert(path.take(n - 1) + seq!['/'] + name =~= path);
    } else {
        assert(name =~= path);
    }
    assert(file_name_of(path) == Some(name));
    assert forall|r: Seq<char>| #[trigger] is_model_path(full, r) implies is_renamed(
        path,
        name,
        r,
    ) by {
        let used = choose|used: char| #[trigger]
            is_separator(used) && r == renamed(full, stem_of(file_name_of(full)), used);
        assert(r == renamed(path, name, used));
    }
}

/// What a text stands for, once its percent escapes are replaced.
pub open spec fn unescaped(text: Seq<char>) -> Seq<char> {
    decode_utf8(percent_decoded(encode_utf8(text)))
}

/// The percent escapes of a text stand for UTF-8.
pub open spec fn can_unescape(text: Seq<char>) -> bool {
    valid_utf8(percent_decoded(encode_utf8(text)))
}

/// No escape reaches across a byte that is not a hexadecimal digit.
proof fn lemma_decoded_apart(a: Seq<u8>, b: Seq<u8>)
    requires
        b.len() > 0,
        hex_value(b[0]) is None,
    ensures
        percent_decoded(a + b) == percent_decoded(a) + percent_decoded(b),
    decreases a.len(),
{
    let both = a + b;
    if a.len() == 0 {
        assert(both =~= b);
        assert(percent_decoded(a) + percent_decoded(b) =~= percent_decoded(b));
    } else if a.len() >= 3 && a[0] == 37 && hex_value(a[1]) is Some && hex_value(a[2]) is Some {
        lemma_decoded_apart(a.skip(3), b);
        assert(both.skip(3) =~= a.skip(3) + b);
        assert(percent_decoded(both) =~= percent_decoded(a) + percent_decoded(b));
    } else {
        lemma_decoded_apart(a.skip(1), b);
        assert(both.skip(1) =~= a.skip(1) + b);
        assert(percent_decoded(both) =~= percent_decoded(a) + percent_decoded(b));
    }
}

proof fn lemma_encode_concat(a: Seq<char>, b: Seq<char>)
    ensures
        encode_utf8(a + b) == encode_utf8(a) + encode_utf8(b),
    decreases a.len(),
{
    if a.len() == 0 {
        assert(a + b =~= b);
        assert(encode_utf8(a) + encode_utf8(b) =~= encode_utf8(b));
    } else {
        lemma_encode_concat(a.drop_first(), b);
        assert((a + b).drop_first() =~= a.drop_first() + b);
        assert(encode_utf8(a + b) =~= encode_utf8(a) + encode_utf8(b));
    }
}

/// The encoding of a slash or a dot.
proof fn lemma_encode_mark(mark: char)
    requires
        mark == '/' || mark == '.',
    ensures
        encode_utf8(seq![mark]) == seq![mark as u8],
{
    let v = mark as u32;
    assert(v <= 0x7f ==> (v & 0x7f) as u8 == v as u8) by (bit_vector);
    reveal_with_fuel(encode_utf8, 2);
    assert(seq![mark].drop_first() =~= Seq::<char>::empty());
    assert(encode_utf8(seq![mark]) =~= seq![mark as u8]);
}

/// No escape reaches across a slash or a dot: the parts of a path on its two
/// sides are decoded each by itself.
pub proof fn law_parts_are_decoded_apart(a: Seq<char>, mark: char, b: Seq<char>)
    requires
        mark == '/' || mark == '.',
        can_unescape(a),
        can_unescape(b),
    ensures
        can_unescape(a + seq![mark] + b),
        unescaped(a + seq![mark] + b) == unescaped(a) + seq![mark] + unescaped(b),
{
    let text = a + seq![mark] + b;
    let whole = unescaped(a) + seq![mark] + unescaped(b);
    let m = seq![mark as u8];
    lemma_encode_mark(mark);
    lemma_encode_concat(a + seq![mark], b);
    lemma_encode_concat(a, seq![mark]);
    lemma_encode_concat(unescaped(a) + seq![mark], unescaped(b));
    lemma_encode_concat(unescaped(a), seq![mark]);
    let behind = m + encode_utf8(b);
    assert(encode_utf8(text) =~= encode_utf8(a) + behind);
    lemma_decoded_apart(encode_utf8(a), behind);
    assert(behind.skip(1) =~= encode_utf8(b));
    assert(percent_decoded(behind) == m + percent_decoded(encode_utf8(b)));
    vstd::utf8::decode_utf8_encode_utf8(percent_decoded(encode_utf8(a)));
    vstd::utf8::decode_utf8_encode_utf8(percent_decoded(encode_utf8(b)));
    assert(percent_decoded(encode_utf8(text)) =~= encode_utf8(whole));
    vstd::utf8::encode_utf8_valid_utf8(whole);
    vstd::utf8::encode_utf8_decode_utf8(whole);
}

/// A text handed over as bytes is the text whose escapes are replaced.
proof fn lemma_handed_is_unescaped(text: Seq<char>)
    ensures
        handed_path(encode_utf8(text)) == percent_decoded(encode_utf8(text)),
{
    vstd::utf8::encode_utf8_valid_utf8(text);
    vstd::utf8::encode_utf8_decode_utf8(text);
}

/// Of `folder/name` handed over as bytes, a name without a percent sign stands
/// for itself, in the folder that `folder` stands for.
pub proof fn law_handed_folder_is_decoded(folder: Seq<char>, name: Seq<char>)
    requires
        can_unescape(folder),
        !name.contains('%'),
    ensures
        ({
            let handed = handed_path(encode_utf8(folder + seq!['/'] + name));
            &&& valid_utf8(handed)
            &&& decode_utf8(handed) == unescaped(folder) + seq!['/'] + name
        }),
{
    law_plain_path_is_literal(name);
    lemma_handed_is_unescaped(name);
    law_parts_are_decoded_apart(folder, '/', name);
    lemma_handed_is_unescaped(folder + seq!['/'] + name);
}

/// Handed over as bytes, `path`, `path.x` and `path.y` all stand for the same
/// model, whatever `x` and `y` are, with percent escapes or without.
pub proof fn law_extensions_load_same_model(
    path: Seq<char>,
    x: Seq<char>,
    y: Seq<char>,
    separator: char,
)
    requires
        can_unescape(path) && can_unescape(x) && can_unescape(y),
        is_portable(unescaped(path)),
        final_name(unescaped(path)).len() > 0,
        !final_name(unescaped(path)).contains('.'),
        !unescaped(x).contains('/') && !unescaped(x).contains('\\'),
        !unescaped(y).contains('/') && !unescaped(y).contains('\\'),
    ensures
        ({
            let bare = handed_path(encode_utf8(path));
            let with_x = handed_path(encode_utf8(path + seq!['.'] + x));
            let with_y = handed_path(encode_utf8(path + seq!['.'] + y));
            let r = model_path_by(unescaped(path), separator);
            &&& valid_utf8(bare) && valid_utf8(with_x) && valid_utf8(with_y)
            &&& decode_utf8(bare) == unescaped(path)
            &&& decode_utf8(with_x) == unescaped(path) + seq!['.'] + unescaped(x)
            &&& decode_utf8(with_y) == unescaped(path) + seq!['.'] + unescaped(y)
            &&& model_path_by(decode_utf8(bare), separator) == r
            &&& model_path_by(decode_utf8(with_x), separator) == r
            &&& model_path_by(decode_utf8(with_y), separator) == r
        }),
{
    lemma_handed_is_unescaped(path);
    lemma_handed_is_unescaped(path + seq!['.'] + x);
    lemma_handed_is_unescaped(path + seq!['.'] + y);
    law_parts_are_decoded_apart(path, '.', x);
    law_parts_are_decoded_apart(path, '.', y);
    law_extensions_are_dropped(unescaped(path), unescaped(x), separator);
    law_extensions_are_dropped(unescaped(path), unescaped(y), separator);
}

/// Bytes that are UTF-8 are decoded as they are, and others count as none.
pub proof fn law_handed_bytes(raw: Seq<u8>)
    ensures
        valid_utf8(raw) ==> handed_path(raw) == percent_decoded(raw),
        !valid_utf8(raw) ==> handed_path(raw).len() == 0 && valid_utf8(handed_path(raw))
            && decode_utf8(handed_path(raw)).len() == 0,
{
    if valid_utf8(raw) {
        vstd::utf8::decode_utf8_encode_utf8(raw);
    } else {
        assert(encode_utf8(Seq::empty()).len() == 0);
        assert(handed_path(raw).len() == 0);
    }
}

/// A percent sign and two hexadecimal digits at the beginning stand for the byte
/// with that value, whatever follows.
pub proof fn law_escape_is_a_byte(high: u8, h: int, low: u8, l: int, rest: Seq<u8>)
    requires
        (48 <= high <= 57 && h == high - 48) || (65 <= high <= 70 && h == high - 55) || (97 <= high
            <= 102 && h == high - 87),
        (48 <= low <= 57 && l == low - 48) || (65 <= low <= 70 && l == low - 55) || (97 <= low
            <= 102 && l == low - 87),
    ensures
        percent_decoded(seq![37u8, high, low] + rest).len() == 1 + percent_decoded(rest).len(),
        percent_decoded(seq![37u8, high, low] + rest)[0] == 16 * h + l,
        percent_decoded(seq![37u8, high, low] + rest).skip(1) == percent_decoded(rest),
{
    let text = seq![37u8, high, low] + rest;
    assert(text.skip(3) =~= rest);
    assert(percent_decoded(text).skip(1) =~= percent_decoded(rest));
}

/// Any other byte at the beginning stands for itself, and so does a percent sign
/// that two hexadecimal digits do not follow.
pub proof fn law_other_bytes_stand_for_themselves(byte: u8, rest: Seq<u8>)
    requires
        byte != 37 || rest.len() < 2 || !(48 <= rest[0] <= 57 || 65 <= rest[0] <= 70 || 97 <= rest[0]
            <= 102) || !(48 <= rest[1] <= 57 || 65 <= rest[1] <= 70 || 97 <= rest[1] <= 102),
    ensures
        percent_decoded(seq![byte] + rest) == seq![byte] + percent_decoded(rest),
        percent_decoded(Seq::empty()).len() == 0,
{
    let text = seq![byte] + rest;
    assert(text.skip(1) =~= rest);
    if rest.len() >= 2 {
        assert(text[1] == rest[0] && text[2] == rest[1]);
    }
}

/// The stem of a file name is what stands in front of its first dot, or all of it.
pub proof fn law_stem_ends_at_first_dot(name: Seq<char>)
    ensures
        stem(name).len() <= name.len(),
        stem(name) == name.take(stem(name).len() as int),
        !stem(name).contains('.'),
        stem(name).len() < name.len() ==> name[stem(name).len() as int] == '.',
{
    lemma_stem_is_prefix(name);
    law_stem_is_final(name);
}

/// By the rules of whatever platform, with backslashes or without: a model is loaded
/// from the path that has, in the place of its file name, what stands in front of
/// the first dot of that name, and nothing else.
pub proof fn law_model_path_drops_extensions_everywhere(path: Seq<char>, r: Seq<char>)
    requires
        is_model_path(path, r),
    ensures
        exists|name: Option<Seq<char>>, bare: Seq<char>|
            {
                &&& #[trigger] file_name_gives(path, name)
                &&& #[trigger] with_file_name_gives(path, bare, r)
                &&& !bare.contains('.')
                &&& name is None ==> bare.len() == 0
                &&& name is Some ==> bare.len() <= name->0.len() && bare == name->0.take(
                    bare.len() as int,
                )
                &&& name is Some && bare.len() < name->0.len() ==> name->0[bare.len() as int] == '.'
            },
{
    let name = choose|name: Option<Seq<char>>|
        {
            &&& #[trigger] file_name_gives(path, name)
            &&& has_last_part(path, name)
            &&& with_file_name_gives(path, stem_of(name), r)
            &&& replaces_last_part(path, stem_of(name), r)
        };
    if name is Some {
        law_stem_ends_at_first_dot(name->0);
    }
    assert(with_file_name_gives(path, stem_of(name), r));
}

/// The model of `folder\name.extensions` is loaded from `folder\name`, on Windows and
/// on Unix alike. A dot in the folder is left out, since it ends the name on Unix.
pub proof fn law_extensions_are_dropped_behind_backslash(
    folder: Seq<char>,
    name: Seq<char>,
    extensions: Seq<char>,
    r: Seq<char>,
)
    requires
        !folder.contains('/'),
        !folder.contains('.'),
        folder.len() > 0 ==> folder.last() != '\\',
        !(folder.len() >= 2 && folder[0] == '\\' && folder[1] == '\\'),
        name.len() > 0,
        !name.contains('.') && !name.contains('/') && !name.contains('\\'),
        !starts_with_drive(name),
        extensions.len() > 0,
        extensions.last() != '.',
        !extensions.contains('/') && !extensions.contains('\\'),
        is_model_path(folder + seq!['\\'] + name + seq!['.'] + extensions, r),
    ensures
        r == folder + seq!['\\'] + name,
{
    let path = folder + seq!['\\'] + name + seq!['.'] + extensions;
    let f = folder.len() as int;
    let dot = f + 1 + name.len();
    assert forall|i: int| 0 <= i < f implies path[i] != '/' && path[i] != '.' by {
        assert(path[i] == folder[i]);
        assert(folder.contains(folder[i]));
    }
    assert forall|i: int| f < i < dot implies path[i] != '.' && !is_separator(path[i]) by {
        assert(path[i] == name[i - f - 1]);
        assert(name.contains(name[i - f - 1]));
    }
    assert forall|i: int| dot < i < path.len() implies !is_separator(path[i]) by {
        assert(path[i] == extensions[i - dot - 1]);
        assert(extensions.contains(extensions[i - dot - 1]));
    }
    assert(path[f] == '\\');
    assert(path[dot] == '.');
    assert(path.last() == extensions.last());
    if f >= 2 {
        assert(path[0] == folder[0] && path[1] == folder[1]);
    }
    assert(ends_in_name(path));
    let given = choose|given: Option<Seq<char>>|
        {
            &&& #[trigger] file_name_gives(path, given)
            &&& has_last_part(path, given)
            &&& with_file_name_gives(path, stem_of(given), r)
            &&& replaces_last_part(path, stem_of(given), r)
        };
    let k = choose|k: int| #[trigger]
        begins_last_part(path, k) && given == Some(path.skip(k));
    if f >= 1 {
        assert(path[f - 1] == folder.last());
    }
    assert(k == 0 || k == f + 1);
    let last = path.skip(k);
    let bare = path.subrange(k, dot);
    assert forall|i: int| 0 <= i < dot - k implies last[i] != '.' by {
        assert(last[i] == path[k + i]);
    }
    lemma_stem_len(last, dot - k);
    assert(stem(last) =~= bare);
    assert(follows_plain_folder(path, k));
    if k == 0 {
        assert(bare[f] == '\\');
        assert(bare.contains('\\'));
    } else {
        assert(bare =~= name);
    }
    assert(file_name_gives(path, Some(path.skip(k))));
    assert(r == path.take(k) + bare);
    assert(path.take(k) + bare =~= folder + seq!['\\'] + name);
}

/// The model of `folder/name.extensions` is loaded from `folder/name`; the separator
/// in front of the name is the platform's.
pub proof fn law_extensions_are_dropped_behind_slash(
    folder: Seq<char>,
    name: Seq<char>,
    extensions: Seq<char>,
    r: Seq<char>,
)
    requires
        !folder.contains('\\'),
        folder.len() > 0 ==> folder.last() != '/',
        !(folder.len() >= 2 && folder[folder.len() - 2] == '/' && folder.last() == '.'),
        !(folder.len() >= 2 && folder[0] == '/' && folder[1] == '/'),
        name.len() > 0,
        !name.contains('.') && !name.contains('/') && !name.contains('\\'),
        !starts_with_drive(name),
        !extensions.contains('/') && !extensions.contains('\\'),
        is_model_path(folder + seq!['/'] + name + seq!['.'] + extensions, r),
    ensures
        r == folder + seq!['/'] + name || r == folder + seq!['\\'] + name,
        folder.len() == 0 ==> r == seq!['/'] + name,
{
    let path = folder + seq!['/'] + name;
    let n = folder.len() as int + 1;
    assert forall|i: int| n <= i < path.len() implies path[i] != '/' && path[i] != '.' && path[i]
        != '\\' by {
        assert(path[i] == name[i - n]);
        assert(name.contains(name[i - n]));
    }
    assert(!path.contains('\\')) by {
        assert forall|i: int| 0 <= i < path.len() implies path[i] != '\\' by {
            if i < folder.len() {
                assert(folder.contains(folder[i]));
            }
        }
    }
    lemma_name_start_at(path, n);
    assert(final_name(path) =~= name);
    assert(trimmed(path) == path);
    assert(path.take(n - 1) =~= folder);
    assert(trimmed(folder) == folder);
    if folder.len() >= 2 {
        assert(path[0] == folder[0] && path[1] == folder[1]);
    }
    assert(is_portable(path));
    law_extensions_are_dropped(path, extensions, '/');
    assert(is_renamed(path, name, r));
    let used = choose|used: char| #[trigger] is_separator(used) && r == renamed(path, name, used);
    assert(file_name_of(path) == Some(name)) by {
        assert(name[0] != '.') by {
            assert(name.contains(name[0]));
        }
    }
    assert(r == in_folder(folder, name, used));
    assert(Seq::<char>::empty() + seq!['/'] + name =~= seq!['/'] + name);
    if folder.len() == 0 {
        assert(folder =~= Seq::empty());
    }
}

/// The model of `name.extensions`, without a folder, is loaded from `name`.
pub proof fn law_extensions_are_dropped_without_folder(
    name: Seq<char>,
    extensions: Seq<char>,
    r: Seq<char>,
)
    requires
        name.len() > 0,
        !name.contains('.') && !name.contains('/') && !name.contains('\\'),
        !starts_with_drive(name),
        !extensions.contains('/') && !extensions.contains('\\'),
        is_model_path(name + seq!['.'] + extensions, r),
    ensures
        r == name,
{
    assert forall|i: int| 0 <= i < name.len() implies name[i] != '/' && name[i] != '.' by {
        assert(name.contains(name[i]));
    }
    lemma_name_start_at(name, 0);
    assert(final_name(name) =~= name);
    assert(trimmed(name) == name);
    assert(is_portable(name));
    law_extensions_are_dropped(name, extensions, '/');
    assert(is_renamed(name, name, r));
    assert(name[0] != '.');
    assert(file_name_of(name) == Some(name));
}


} // verus!
