//! The codec: from an arbitrary file name to its canonical form under a case
//! convention.
//!
//! A name is split into stem and extension at its last dot. The stem is
//! decomposed (NFD), stripped of everything outside 7-bit ASCII, and rewritten
//! in the convention; the extension is kept as it is.

use crate::convention::CaseConvention;
use crate::error::{NamingError, NamingErrorView};
use crate::text::{
    char_is_ascii, chars_of, ends_with, is_ascii_char, last_index_of, last_position,
    lemma_last_index_is, lemma_last_index_of, string_of,
};
use unicode_normalization::UnicodeNormalization;
use vstd::prelude::*;
use vstd::slice::{slice_subrange, slice_to_vec};
use vstd::string::StrSliceExecFns;
use vstd::string::StringExecFns;
use vstd::utf8::{decode_utf8, is_ascii_chars, valid_utf8};

verus! {

/// A file name split at its last dot.
#[derive(Clone, Debug, PartialEq, Eq)]
pub struct FilenameComponents {
    /// The part before the last dot; the whole name where it has no dot.
    /// Empty for a dotfile.
    pub stem: String,
    /// The part after the last dot; empty where the name has no dot.
    pub extension: String,
}

/// The mathematical content of a [`FilenameComponents`].
pub struct ComponentsView {
    pub stem: Seq<char>,
    pub extension: Seq<char>,
}

impl View for FilenameComponents {
    type V = ComponentsView;

    open spec fn view(&self) -> ComponentsView {
        ComponentsView { stem: self.stem@, extension: self.extension@ }
    }
}

/// The final segment of `path`: what follows its last `/`, or all of it
/// where it has none.
pub open spec fn final_segment(path: Seq<char>) -> Seq<char> {
    path.subrange(last_index_of(path, '/') + 1, path.len() as int)
}

/// The part of `name` before its last dot; all of `name` where it has none.
pub open spec fn stem_of(name: Seq<char>) -> Seq<char> {
    let dot = last_index_of(name, '.');
    if dot < 0 {
        name
    } else {
        name.subrange(0, dot)
    }
}

/// The part of `name` after its last dot; empty where it has none.
pub open spec fn extension_of(name: Seq<char>) -> Seq<char> {
    let dot = last_index_of(name, '.');
    if dot < 0 {
        Seq::empty()
    } else {
        name.subrange(dot + 1, name.len() as int)
    }
}

/// The components of the final segment of `path`.
pub open spec fn components_of(path: Seq<char>) -> ComponentsView {
    ComponentsView {
        stem: stem_of(final_segment(path)),
        extension: extension_of(final_segment(path)),
    }
}

/// What `unicode_normalization`'s NFD iterator yields for `s`: its
/// canonical decomposition.
pub uninterp spec fn nfd_of(s: Seq<char>) -> Seq<char>;

/// The characters of `s` that lie in 7-bit ASCII, in order.
pub open spec fn ascii_only(s: Seq<char>) -> Seq<char> {
    s.filter(|c: char| is_ascii_char(c))
}

/// The ASCII remnant of `stem`: its canonical decomposition without the
/// characters outside 7-bit ASCII. An accented letter keeps its base letter;
/// a character with no ASCII part vanishes.
pub open spec fn folded(stem: Seq<char>) -> Seq<char> {
    ascii_only(nfd_of(stem))
}

/// A canonical stem and an extension put together again. An empty stem gives
/// a dotfile.
pub open spec fn composed(stem: Seq<char>, extension: Seq<char>) -> Seq<char> {
    if stem.len() == 0 {
        seq!['.'] + extension
    } else if extension.len() == 0 {
        stem
    } else {
        stem + seq!['.'] + extension
    }
}

/// The canonical form of `stem` under `convention`.
pub open spec fn canonical_stem(convention: CaseConvention, stem: Seq<char>) -> Seq<char> {
    convention.converted(folded(stem))
}

impl ComponentsView {
    /// The canonical name for these components under `convention`.
    pub open spec fn canonical(self, convention: CaseConvention) -> Seq<char> {
        composed(canonical_stem(convention, self.stem), self.extension)
    }
}

/// The canonical name of the file at `path` under `convention`.
pub open spec fn canonical_name(path: Seq<char>, convention: CaseConvention) -> Seq<char> {
    components_of(path).canonical(convention)
}

/// `UnicodeNormalization::nfd` on a string slice, collected. Not proved: the
/// characters that come out are the named canonical decomposition of the
/// input.
#[verifier::external_body]
fn decompose(s: &str) -> (r: Vec<char>)
    ensures
        r@ == nfd_of(s@),
{
    s.nfd().collect()
}

/// `core::str::from_utf8`. Not proved: it accepts exactly the byte strings
/// that are valid UTF-8, and the text it returns is their decoding.
#[verifier::external_body]
fn text_of_bytes(raw: &[u8]) -> (r: Option<&str>)
    ensures
        r is Some <==> valid_utf8(raw@),
        r matches Some(s) ==> s@ == decode_utf8(raw@),
{
    core::str::from_utf8(raw).ok()
}

/// The final segment of a path holds no `/`.
pub proof fn lemma_final_segment_has_no_slash(path: Seq<char>)
    ensures
        forall|i: int| 0 <= i < final_segment(path).len() ==> final_segment(path)[i] != '/',
{
    lemma_last_index_of(path, '/');
}

/// The extension of a name holds no dot, and no character that the name
/// does not hold.
pub proof fn lemma_extension_has_no_dot(name: Seq<char>)
    ensures
        forall|i: int| 0 <= i < extension_of(name).len() ==> extension_of(name)[i] != '.',
        forall|i: int|
            0 <= i < extension_of(name).len() ==> name.contains(#[trigger] extension_of(name)[i]),
{
    lemma_last_index_of(name, '.');
    let dot = last_index_of(name, '.');
    assert forall|i: int| 0 <= i < extension_of(name).len() implies name.contains(
        #[trigger] extension_of(name)[i],
    ) by {
        assert(name[dot + 1 + i] == extension_of(name)[i]);
    }
}

/// Splitting a composed name gives back the stem and the extension it was
/// composed of, where the stem holds neither dot nor slash and the extension
/// is one that a split can yield.
pub proof fn lemma_split_of_composed(stem: Seq<char>, extension: Seq<char>)
    requires
        forall|i: int| 0 <= i < stem.len() ==> stem[i] != '.' && stem[i] != '/',
        forall|i: int| 0 <= i < extension.len() ==> extension[i] != '.' && extension[i] != '/',
        stem.len() > 0 || extension.len() > 0,
    ensures
        components_of(composed(stem, extension)) == (ComponentsView { stem, extension }),
{
    let name = composed(stem, extension);
    lemma_last_index_is(name, '/', -1);
    assert(final_segment(name) =~= name);
    if stem.len() == 0 {
        lemma_last_index_is(name, '.', 0);
        assert(stem_of(name) =~= stem);
        assert(extension_of(name) =~= extension);
    } else if extension.len() == 0 {
        lemma_last_index_is(name, '.', -1);
        assert(extension_of(name) =~= extension);
    } else {
        lemma_last_index_is(name, '.', stem.len() as int);
        assert(stem_of(name) =~= stem);
        assert(extension_of(name) =~= extension);
    }
}

/// Extension preservation: the canonical name of a file with a non-empty
/// extension ends in a dot and that extension.
pub proof fn lemma_extension_preserved(path: Seq<char>, convention: CaseConvention)
    requires
        components_of(path).extension.len() > 0,
    ensures
        ends_with(canonical_name(path, convention), seq!['.'] + components_of(path).extension),
{
    let parts = components_of(path);
    let stem = canonical_stem(convention, parts.stem);
    let name = canonical_name(path, convention);
    let suffix = seq!['.'] + parts.extension;
    if stem.len() == 0 {
        assert(name.subrange(0, name.len() as int) =~= suffix);
    } else {
        assert(name =~= stem + suffix);
        assert(name.subrange(stem.len() as int, name.len() as int) =~= suffix);
    }
}

/// ASCII-only output, stated of the parts: a canonical stem within the
/// convention's alphabet and an ASCII extension compose to an ASCII name.
pub proof fn lemma_composed_is_ascii(
    convention: CaseConvention,
    stem: Seq<char>,
    extension: Seq<char>,
)
    requires
        convention.admits(stem),
        is_ascii_chars(extension),
    ensures
        is_ascii_chars(composed(stem, extension)),
{
    let name = composed(stem, extension);
    assert forall|i: int| 0 <= i < name.len() implies '\0' <= #[trigger] name[i] <= '\u{7f}' by {
        if stem.len() == 0 {
            if i > 0 {
                assert(name[i] == extension[i - 1]);
            }
        } else if i < stem.len() {
            assert(name[i] == stem[i]);
        } else if i > stem.len() {
            assert(name[i] == extension[i - stem.len() - 1]);
        }
    }
}

/// Idempotence: a canonical name whose stem is within the convention's
/// alphabet and is left as it is by the stem transform is its own canonical
/// name.
pub proof fn lemma_canonical_name_is_fixed(path: Seq<char>, convention: CaseConvention)
    requires
        convention.admits(canonical_stem(convention, components_of(path).stem)),
        canonical_stem(convention, canonical_stem(convention, components_of(path).stem))
            == canonical_stem(convention, components_of(path).stem),
    ensures
        canonical_name(canonical_name(path, convention), convention) == canonical_name(
            path,
            convention,
        ),
{
    let parts = components_of(path);
    let stem = canonical_stem(convention, parts.stem);
    let extension = parts.extension;
    lemma_final_segment_has_no_slash(path);
    lemma_extension_has_no_dot(final_segment(path));
    assert forall|i: int| 0 <= i < extension.len() implies extension[i] != '.' && extension[i]
        != '/' by {
        let c = extension[i];
        assert(final_segment(path).contains(c));
    }
    if stem.len() > 0 || extension.len() > 0 {
        lemma_split_of_composed(stem, extension);
    } else {
        let name = composed(stem, extension);
        assert(name =~= seq!['.']);
        lemma_last_index_is(name, '/', -1);
        assert(final_segment(name) =~= name);
        lemma_last_index_is(name, '.', 0);
        assert(stem_of(name) =~= stem);
        assert(extension_of(name) =~= extension);
    }
}

/// A canonical name whose stem is within the convention's alphabet holds no
/// `/`.
pub proof fn lemma_canonical_name_has_no_slash(path: Seq<char>, convention: CaseConvention)
    requires
        convention.admits(canonical_stem(convention, components_of(path).stem)),
    ensures
        forall|i: int|
            0 <= i < canonical_name(path, convention).len() ==> canonical_name(
                path,
                convention,
            )[i] != '/',
{
    let parts = components_of(path);
    let stem = canonical_stem(convention, parts.stem);
    let extension = parts.extension;
    let name = canonical_name(path, convention);
    lemma_final_segment_has_no_slash(path);
    lemma_extension_has_no_dot(final_segment(path));
    assert forall|i: int| 0 <= i < name.len() implies name[i] != '/' by {
        if stem.len() == 0 {
            if i > 0 {
                assert(name[i] == extension[i - 1]);
                assert(final_segment(path).contains(extension[i - 1]));
            }
        } else if i < stem.len() {
            assert(name[i] == stem[i]);
        } else if extension.len() > 0 && i > stem.len() {
            assert(name[i] == extension[i - stem.len() - 1]);
            assert(final_segment(path).contains(extension[i - stem.len() - 1]));
        }
    }
}

/// Keeps the characters of `chars` that lie in 7-bit ASCII.
pub fn keep_ascii(chars: &Vec<char>) -> (kept: Vec<char>)
    ensures
        kept@ == ascii_only(chars@),
        is_ascii_chars(kept@),
{
    let mut kept: Vec<char> = Vec::new();
    let mut i: usize = 0;
    while i < chars.len()
        invariant
            i <= chars.len(),
            kept@ == ascii_only(chars@.take(i as int)),
            is_ascii_chars(kept@),
        decreases chars.len() - i,
    {
        proof {
            let next = chars@.take(i + 1);
            assert(next.drop_last() == chars@.take(i as int));
            assert(next.last() == chars@[i as int]);
            reveal(Seq::filter);
        }
        let c = chars[i];
        if char_is_ascii(c) {
            let ghost before = kept@;
            kept.push(c);
            assert forall|k: int| 0 <= k < kept@.len() implies '\0' <= #[trigger] kept@[k]
                <= '\u{7f}' by {
                if k < before.len() {
                    assert(kept@[k] == before[k]);
                }
            }
        }
        i += 1;
    }
    proof {
        assert(chars@.take(i as int) == chars@);
    }
    kept
}

/// Decomposes `stem` and drops what is not ASCII.
pub fn fold_to_ascii(stem: &str) -> (r: String)
    ensures
        r@ == folded(stem@),
        is_ascii_chars(r@),
{
    let decomposed = decompose(stem);
    let kept = keep_ascii(&decomposed);
    string_of(&kept)
}

/// Puts a canonical stem and an extension together: `.extension` for an
/// empty stem, the stem alone for an empty extension, `stem.extension`
/// otherwise.
pub fn compose(stem: &str, extension: &str) -> (name: String)
    ensures
        name@ == composed(stem@, extension@),
{
    if stem.is_empty() {
        let mut name = String::new();
        name.push('.');
        name.append(extension);
        proof {
            assert(Seq::<char>::empty().push('.') =~= seq!['.']);
        }
        name
    } else if extension.is_empty() {
        stem.to_owned()
    } else {
        let mut name = stem.to_owned();
        name.push('.');
        name.append(extension);
        proof {
            assert(stem@.push('.') =~= stem@ + seq!['.']);
        }
        name
    }
}

/// Splits the final segment of `path` at its last dot.
pub fn split_filename(path: &str) -> (parts: FilenameComponents)
    ensures
        parts@ == components_of(path@),
{
    let chars = chars_of(path);
    proof {
        lemma_last_index_of(chars@, '/');
    }
    let start: usize = match last_position(&chars, '/') {
        Some(slash) => {
            assert(slash < chars.len());
            slash + 1
        },
        None => 0,
    };
    let name = path.substring_char(start, chars.len());
    let name_chars = chars_of(name);
    proof {
        lemma_last_index_of(name_chars@, '.');
    }
    match last_position(&name_chars, '.') {
        Some(dot) => {
            assert(dot < name_chars.len());
            FilenameComponents {
                stem: name.substring_char(0, dot).to_owned(),
                extension: name.substring_char(dot + 1, name_chars.len()).to_owned(),
            }
        },
        None => FilenameComponents { stem: name.to_owned(), extension: String::new() },
    }
}

impl FilenameComponents {
    /// The canonical name for these components under `convention`.
    ///
    /// The result ends in a dot and the extension wherever the extension is
    /// not empty; it is ASCII wherever the extension is; and it is its own
    /// canonical name wherever the stem transform leaves the canonical stem
    /// as it is.
    pub fn normalize(&self, convention: CaseConvention) -> (name: String)
        ensures
            name@ == self@.canonical(convention),
            self.extension@.len() > 0 ==> ends_with(name@, seq!['.'] + self.extension@),
            is_ascii_chars(self.extension@) ==> is_ascii_chars(name@),
            convention.admits(canonical_stem(convention, self.stem@)),
    {
        let ascii = fold_to_ascii(self.stem.as_str());
        let stem = convention.convert(ascii.as_str());
        let name = compose(stem.as_str(), self.extension.as_str());
        proof {
            if self.extension@.len() > 0 {
                if stem@.len() == 0 {
                    assert(name@.subrange(0, name@.len() as int) =~= seq!['.']
                        + self.extension@);
                } else {
                    assert(name@.subrange(stem@.len() as int, name@.len() as int) =~= seq!['.']
                        + self.extension@);
                }
            }
            if is_ascii_chars(self.extension@) {
                lemma_composed_is_ascii(convention, stem@, self.extension@);
            }
        }
        name
    }
}

/// The canonical name of the file at `path` under `convention`: the name
/// only, without the directories that lead to it.
///
/// Beyond the exact result: the extension is preserved, the result is ASCII
/// wherever the extension is, and normalizing is idempotent wherever the
/// stem transform leaves the canonical stem as it is.
pub fn normalize(path: &str, convention: CaseConvention) -> (name: String)
    ensures
        name@ == canonical_name(path@, convention),
        components_of(path@).extension.len() > 0 ==> ends_with(
            name@,
            seq!['.'] + components_of(path@).extension,
        ),
        is_ascii_chars(components_of(path@).extension) ==> is_ascii_chars(name@),
        canonical_stem(convention, canonical_stem(convention, components_of(path@).stem))
            == canonical_stem(convention, components_of(path@).stem) ==> canonical_name(
            name@,
            convention,
        ) == name@,
        convention.admits(canonical_stem(convention, components_of(path@).stem)),
{
    let parts = split_filename(path);
    let name = parts.normalize(convention);
    proof {
        if canonical_stem(convention, canonical_stem(convention, components_of(path@).stem))
            == canonical_stem(convention, components_of(path@).stem) {
            lemma_canonical_name_is_fixed(path@, convention);
        }
    }
    name
}

/// The index of the last `/` among the bytes of a path, or `-1`.
pub open spec fn last_slash_byte(raw: Seq<u8>) -> int
    decreases raw.len(),
{
    if raw.len() == 0 {
        -1
    } else if raw.last() == 0x2fu8 {
        raw.len() - 1
    } else {
        last_slash_byte(raw.drop_last())
    }
}

/// The bytes of the final segment of a path: what follows its last `/`.
pub open spec fn final_segment_bytes(raw: Seq<u8>) -> Seq<u8> {
    raw.subrange(last_slash_byte(raw) + 1, raw.len() as int)
}

/// The last `/` lies within the path.
pub proof fn lemma_last_slash_byte(raw: Seq<u8>)
    ensures
        -1 <= last_slash_byte(raw) < raw.len(),
    decreases raw.len(),
{
    if raw.len() > 0 && raw.last() != 0x2fu8 {
        lemma_last_slash_byte(raw.drop_last());
    }
}

/// The name of the file at `path`: its final segment.
pub fn file_name(path: &str) -> (name: String)
    ensures
        name@ == final_segment(path@),
{
    let chars = chars_of(path);
    proof {
        lemma_last_index_of(chars@, '/');
    }
    let start: usize = match last_position(&chars, '/') {
        Some(slash) => {
            assert(slash < chars.len());
            slash + 1
        },
        None => 0,
    };
    path.substring_char(start, chars.len()).to_owned()
}

/// The canonical name of the file whose path is given as raw bytes. Only
/// the final segment has to be Unicode text: the call fails with
/// [`NamingError::Encoding`], which carries the path, exactly where the bytes
/// after the last `/` are not valid UTF-8.
pub fn normalize_bytes(raw: &[u8], convention: CaseConvention) -> (r: Result<String, NamingError>)
    ensures
        match r {
            Ok(name) => valid_utf8(final_segment_bytes(raw@)) && name@ == canonical_name(
                decode_utf8(final_segment_bytes(raw@)),
                convention,
            ),
            Err(e) => !valid_utf8(final_segment_bytes(raw@)) && e@ == (NamingErrorView::Encoding {
                raw: raw@,
            }),
        },
{
    let mut start: usize = 0;
    let mut i: usize = 0;
    while i < raw.len()
        invariant
            i <= raw.len(),
            start == last_slash_byte(raw@.take(i as int)) + 1,
            start <= i,
        decreases raw.len() - i,
    {
        proof {
            assert(raw@.take(i + 1).drop_last() == raw@.take(i as int));
            assert(raw@.take(i + 1).last() == raw@[i as int]);
        }
        if raw[i] == 0x2fu8 {
            start = i + 1;
        }
        i += 1;
    }
    proof {
        assert(raw@.take(i as int) == raw@);
    }
    let segment = slice_subrange(raw, start, raw.len());
    match text_of_bytes(segment) {
        Some(name) => Ok(normalize(name, convention)),
        None => Err(NamingError::Encoding { raw: slice_to_vec(raw) }),
    }
}

} // verus!
