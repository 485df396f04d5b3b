//! The fixed catalog of case conventions and the word-level transforms
//! behind them.
//!
//! The transforms themselves are those of the `inflector` crate. Each one is
//! a deterministic function of its input text, so its result is given a name
//! here and the contracts of this crate are stated over those names.

use crate::text::{chars_of, string_of};
use inflector::cases::camelcase::to_camel_case;
use inflector::cases::kebabcase::to_kebab_case;
use inflector::cases::pascalcase::to_pascal_case;
use inflector::cases::screamingsnakecase::to_screaming_snake_case;
use inflector::cases::sentencecase::to_sentence_case;
use inflector::cases::snakecase::to_snake_case;
use inflector::cases::titlecase::to_title_case;
use inflector::cases::traincase::to_train_case;
use vstd::prelude::*;
use vstd::utf8::is_ascii_chars;

verus! {

/// A target case convention. Each variant is written in the doc comment the
/// way a name looks once it follows that convention.
#[derive(Clone, Copy, Debug, PartialEq, Eq, Structural)]
pub enum CaseConvention {
    /// `kebab-case`
    KebabCase,
    /// `camelCase`
    CamelCase,
    /// `PascalCase`
    PascalCase,
    /// `SCREAMING_SNAKE_CASE`
    ScreamingSnakeCase,
    /// `Sentence_case`
    SentenceCase,
    /// `snake_case`
    SnakeCase,
    /// `Title_Case`
    TitleCase,
    /// `Train-Case`
    TrainCase,
}

/// An ASCII letter or digit.
pub open spec fn is_ascii_alphanumeric(c: char) -> bool {
    ||| '0' <= c <= '9'
    ||| 'a' <= c <= 'z'
    ||| 'A' <= c <= 'Z'
}

/// Every character of `s` is an ASCII letter or digit.
pub open spec fn is_alphanumeric_text(s: Seq<char>) -> bool {
    forall|i: int| 0 <= i < s.len() ==> is_ascii_alphanumeric(#[trigger] s[i])
}

/// Every character of `s` is an ASCII letter or digit, or is `sep`.
pub open spec fn is_separated_text(s: Seq<char>, sep: char) -> bool {
    forall|i: int| 0 <= i < s.len() ==> is_ascii_alphanumeric(#[trigger] s[i]) || s[i] == sep
}

/// What `inflector`'s `to_kebab_case` returns for `s`.
pub uninterp spec fn kebab_case_of(s: Seq<char>) -> Seq<char>;

/// What `inflector`'s `to_camel_case` returns for `s`.
pub uninterp spec fn camel_case_of(s: Seq<char>) -> Seq<char>;

/// What `inflector`'s `to_pascal_case` returns for `s`.
pub uninterp spec fn pascal_case_of(s: Seq<char>) -> Seq<char>;

/// What `inflector`'s `to_screaming_snake_case` returns for `s`.
pub uninterp spec fn screaming_snake_case_of(s: Seq<char>) -> Seq<char>;

/// What `inflector`'s `to_sentence_case` returns for `s`.
pub uninterp spec fn sentence_case_of(s: Seq<char>) -> Seq<char>;

/// What `inflector`'s `to_snake_case` returns for `s`.
pub uninterp spec fn snake_case_of(s: Seq<char>) -> Seq<char>;

/// What `inflector`'s `to_title_case` returns for `s`.
pub uninterp spec fn title_case_of(s: Seq<char>) -> Seq<char>;

/// What `inflector`'s `to_train_case` returns for `s`.
pub uninterp spec fn train_case_of(s: Seq<char>) -> Seq<char>;

/// `inflector::cases::kebabcase::to_kebab_case`. Not proved: the result is
/// the named kebab-case form of the input; on ASCII input the function emits
/// only lower-cased letters and digits of the input and `-` between words.
pub assume_specification[ to_kebab_case ](s: &str) -> (r: String)
    ensures
        r@ == kebab_case_of(s@),
        is_ascii_chars(s@) ==> is_separated_text(r@, '-'),
;

/// `inflector::cases::camelcase::to_camel_case`. Not proved: the result is
/// the named camel-case form of the input; on ASCII input the function drops
/// every separator and emits only letters and digits of the input.
pub assume_specification[ to_camel_case ](s: &str) -> (r: String)
    ensures
        r@ == camel_case_of(s@),
        is_ascii_chars(s@) ==> is_alphanumeric_text(r@),
;

/// `inflector::cases::pascalcase::to_pascal_case`. Not proved: the result is
/// the named Pascal-case form of the input; on ASCII input the function drops
/// every separator and emits only letters and digits of the input.
pub assume_specification[ to_pascal_case ](s: &str) -> (r: String)
    ensures
        r@ == pascal_case_of(s@),
        is_ascii_chars(s@) ==> is_alphanumeric_text(r@),
;

/// `inflector::cases::screamingsnakecase::to_screaming_snake_case`. Not
/// proved: the result is the named screaming-snake-case form of the input; on
/// ASCII input the function emits only upper-cased letters and digits of the
/// input and `_` between words.
pub assume_specification[ to_screaming_snake_case ](s: &str) -> (r: String)
    ensures
        r@ == screaming_snake_case_of(s@),
        is_ascii_chars(s@) ==> is_separated_text(r@, '_'),
;

/// `inflector::cases::sentencecase::to_sentence_case`. Not proved: the result
/// is the named sentence-case form of the input; on ASCII input the function
/// emits only letters and digits of the input and a space between words.
pub assume_specification[ to_sentence_case ](s: &str) -> (r: String)
    ensures
        r@ == sentence_case_of(s@),
        is_ascii_chars(s@) ==> is_separated_text(r@, ' '),
;

/// `inflector::cases::snakecase::to_snake_case`. Not proved: the result is
/// the named snake-case form of the input; on ASCII input the function emits
/// only lower-cased letters and digits of the input and `_` between words.
pub assume_specification[ to_snake_case ](s: &str) -> (r: String)
    ensures
        r@ == snake_case_of(s@),
        is_ascii_chars(s@) ==> is_separated_text(r@, '_'),
;

/// `inflector::cases::titlecase::to_title_case`. Not proved: the result is
/// the named title-case form of the input; on ASCII input the function emits
/// only letters and digits of the input and a space between words.
pub assume_specification[ to_title_case ](s: &str) -> (r: String)
    ensures
        r@ == title_case_of(s@),
        is_ascii_chars(s@) ==> is_separated_text(r@, ' '),
;

/// `inflector::cases::traincase::to_train_case`. Not proved: the result is
/// the named train-case form of the input; on ASCII input the function emits
/// only letters and digits of the input and `-` between words.
pub assume_specification[ to_train_case ](s: &str) -> (r: String)
    ensures
        r@ == train_case_of(s@),
        is_ascii_chars(s@) ==> is_separated_text(r@, '-'),
;

/// `s` with every space replaced by an underscore.
pub open spec fn underscored(s: Seq<char>) -> Seq<char> {
    Seq::new(s.len(), |i: int| if s[i] == ' ' { '_' } else { s[i] })
}

/// Replaces every space of `s` by an underscore, so that a name made of
/// several words stays free of blanks.
pub fn underscore_spaces(s: &str) -> (r: String)
    ensures
        r@ == underscored(s@),
{
    let chars = chars_of(s);
    let mut out: Vec<char> = Vec::new();
    let mut i: usize = 0;
    while i < chars.len()
        invariant
            i <= chars.len(),
            out@ == underscored(chars@).take(i as int),
        decreases chars.len() - i,
    {
        let c = chars[i];
        if c == ' ' {
            out.push('_');
        } else {
            out.push(c);
        }
        i += 1;
    }
    string_of(&out)
}

impl CaseConvention {
    /// The one character, if any, that this convention puts between words.
    pub open spec fn separator(self) -> Option<char> {
        match self {
            CaseConvention::KebabCase => Some('-'),
            CaseConvention::CamelCase => None,
            CaseConvention::PascalCase => None,
            CaseConvention::ScreamingSnakeCase => Some('_'),
            CaseConvention::SentenceCase => Some('_'),
            CaseConvention::SnakeCase => Some('_'),
            CaseConvention::TitleCase => Some('_'),
            CaseConvention::TrainCase => Some('-'),
        }
    }

    /// The stem `s` rewritten in this convention.
    pub open spec fn converted(self, s: Seq<char>) -> Seq<char> {
        match self {
            CaseConvention::KebabCase => kebab_case_of(s),
            CaseConvention::CamelCase => camel_case_of(s),
            CaseConvention::PascalCase => pascal_case_of(s),
            CaseConvention::ScreamingSnakeCase => screaming_snake_case_of(s),
            CaseConvention::SentenceCase => underscored(sentence_case_of(s)),
            CaseConvention::SnakeCase => snake_case_of(s),
            CaseConvention::TitleCase => underscored(title_case_of(s)),
            CaseConvention::TrainCase => train_case_of(s),
        }
    }

    /// Every character of `s` is an ASCII letter or digit or this
    /// convention's separator.
    pub open spec fn admits(self, s: Seq<char>) -> bool {
        forall|i: int|
            0 <= i < s.len() ==> is_ascii_alphanumeric(#[trigger] s[i]) || self.separator()
                == Some(s[i])
    }

    /// Rewrites `stem` in this convention.
    pub fn convert(self, stem: &str) -> (r: String)
        ensures
            r@ == self.converted(stem@),
            is_ascii_chars(stem@) ==> self.admits(r@),
    {
        match self {
            CaseConvention::KebabCase => to_kebab_case(stem),
            CaseConvention::CamelCase => to_camel_case(stem),
            CaseConvention::PascalCase => to_pascal_case(stem),
            CaseConvention::ScreamingSnakeCase => to_screaming_snake_case(stem),
            CaseConvention::SentenceCase => {
                let spaced = to_sentence_case(stem);
                underscore_spaces(spaced.as_str())
            },
            CaseConvention::SnakeCase => to_snake_case(stem),
            CaseConvention::TitleCase => {
                let spaced = to_title_case(stem);
                underscore_spaces(spaced.as_str())
            },
            CaseConvention::TrainCase => to_train_case(stem),
        }
    }
}

} // verus!
