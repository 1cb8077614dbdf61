//! The case conventions of `#[lax(rename_all = "...")]`: how a field written
//! in `snake_case` or a variant written in `PascalCase` is renamed.

use vstd::prelude::*;
use vstd::string::*;

use crate::text::{push_char, same_text};

verus! {

/// A case convention for renaming fields and variants.
#[derive(Debug, Clone, Copy, PartialEq, Eq)]
pub enum RenameRule {
    /// Keep names as written.
    Unchanged,
    /// `lowercase`
    LowerCase,
    /// `UPPERCASE`
    UpperCase,
    /// `PascalCase`
    PascalCase,
    /// `camelCase`
    CamelCase,
    /// `snake_case`
    SnakeCase,
    /// `SCREAMING_SNAKE_CASE`
    ScreamingSnakeCase,
    /// `kebab-case`
    KebabCase,
    /// `SCREAMING-KEBAB-CASE`
    ScreamingKebabCase,
}

/// Whether `char::is_uppercase` holds of `c` (the Unicode `Uppercase`
/// property).
pub uninterp spec fn unicode_uppercase(c: char) -> bool;

/// Whether a character is uppercase.
///
/// Trusted: calls `char::is_uppercase`; the contract says only that the result
/// is the named property of the character.
#[verifier::external_body]
pub(crate) fn is_uppercase(c: char) -> (r: bool)
    ensures
        r == unicode_uppercase(c),
{
    c.is_uppercase()
}

/// `char::to_ascii_lowercase`: ASCII capitals become small letters.
pub open spec fn ascii_lower(c: char) -> char {
    if 'A' <= c && c <= 'Z' { ((c as u32) + 32) as char } else { c }
}

/// `char::to_ascii_uppercase`: ASCII small letters become capitals.
pub open spec fn ascii_upper(c: char) -> char {
    if 'a' <= c && c <= 'z' { ((c as u32) - 32) as char } else { c }
}

/// `str::to_ascii_lowercase`.
pub open spec fn lower_all(s: Seq<char>) -> Seq<char> {
    s.map_values(|c: char| ascii_lower(c))
}

/// `str::to_ascii_uppercase`.
pub open spec fn upper_all(s: Seq<char>) -> Seq<char> {
    s.map_values(|c: char| ascii_upper(c))
}

/// Every `_` replaced by `-`.
pub open spec fn dashed(s: Seq<char>) -> Seq<char> {
    s.map_values(|c: char| if c == '_' { '-' } else { c })
}

/// The first character lowered, the rest kept.
pub open spec fn lower_first(s: Seq<char>) -> Seq<char> {
    if s.len() == 0 { s } else { seq![ascii_lower(s[0])] + s.skip(1) }
}

/// A `PascalCase` name in `snake_case`: an `_` before every uppercase
/// character but the first, and every character lowered.
pub open spec fn snake_of_variant(s: Seq<char>) -> Seq<char>
    decreases s.len(),
{
    if s.len() == 0 {
        Seq::empty()
    } else {
        let before = snake_of_variant(s.drop_last());
        let c = s.last();
        if s.len() > 1 && unicode_uppercase(c) {
            before.push('_').push(ascii_lower(c))
        } else {
            before.push(ascii_lower(c))
        }
    }
}

/// A `snake_case` name in `PascalCase`: underscores dropped, and the first
/// character and every character after an underscore raised.
pub open spec fn pascal_of_field(s: Seq<char>) -> Seq<char>
    decreases s.len(),
{
    if s.len() == 0 {
        Seq::empty()
    } else {
        let before = pascal_of_field(s.drop_last());
        let i = s.len() - 1;
        let c = s.last();
        if c == '_' {
            before
        } else if i == 0 || s[i - 1] == '_' {
            before.push(ascii_upper(c))
        } else {
            before.push(c)
        }
    }
}

/// The name of a variant (written in `PascalCase`) under a rule.
pub open spec fn variant_name(rule: RenameRule, v: Seq<char>) -> Seq<char> {
    match rule {
        RenameRule::Unchanged | RenameRule::PascalCase => v,
        RenameRule::LowerCase => lower_all(v),
        RenameRule::UpperCase => upper_all(v),
        RenameRule::CamelCase => lower_first(v),
        RenameRule::SnakeCase => snake_of_variant(v),
        RenameRule::ScreamingSnakeCase => upper_all(snake_of_variant(v)),
        RenameRule::KebabCase => dashed(snake_of_variant(v)),
        RenameRule::ScreamingKebabCase => dashed(upper_all(snake_of_variant(v))),
    }
}

/// The name of a field (written in `snake_case`) under a rule.
pub open spec fn field_name(rule: RenameRule, f: Seq<char>) -> Seq<char> {
    match rule {
        RenameRule::Unchanged | RenameRule::LowerCase | RenameRule::SnakeCase => f,
        RenameRule::UpperCase | RenameRule::ScreamingSnakeCase => upper_all(f),
        RenameRule::PascalCase => pascal_of_field(f),
        RenameRule::CamelCase => lower_first(pascal_of_field(f)),
        RenameRule::KebabCase => dashed(f),
        RenameRule::ScreamingKebabCase => dashed(upper_all(f)),
    }
}

/// Whether a rule can be applied: `camelCase` lowers the first character of
/// the name by cutting off its first byte, which needs a name that starts
/// with an ASCII character.
pub open spec fn starts_ascii(s: Seq<char>) -> bool {
    s.len() > 0 && (s[0] as u32) < 128
}

/// The rule a `rename_all` value names, if it names one.
pub open spec fn rule_named(text: Seq<char>) -> Option<RenameRule> {
    if text == "lowercase"@ { Some(RenameRule::LowerCase) }
    else if text == "UPPERCASE"@ { Some(RenameRule::UpperCase) }
    else if text == "PascalCase"@ { Some(RenameRule::PascalCase) }
    else if text == "camelCase"@ { Some(RenameRule::CamelCase) }
    else if text == "snake_case"@ { Some(RenameRule::SnakeCase) }
    else if text == "SCREAMING_SNAKE_CASE"@ { Some(RenameRule::ScreamingSnakeCase) }
    else if text == "kebab-case"@ { Some(RenameRule::KebabCase) }
    else if text == "SCREAMING-KEBAB-CASE"@ { Some(RenameRule::ScreamingKebabCase) }
    else { None }
}

/// ASCII capitals become small letters.
pub fn to_ascii_lower(c: char) -> (r: char)
    ensures
        r == ascii_lower(c),
{
    if 'A' <= c && c <= 'Z' {
        let b: u8 = c as u8;
        (b + 32) as char
    } else {
        c
    }
}

/// ASCII small letters become capitals.
pub fn to_ascii_upper(c: char) -> (r: char)
    ensures
        r == ascii_upper(c),
{
    if 'a' <= c && c <= 'z' {
        let b: u8 = c as u8;
        (b - 32) as char
    } else {
        c
    }
}

impl RenameRule {
    /// The rule that a `rename_all` value names: one of `lowercase`,
    /// `UPPERCASE`, `PascalCase`, `camelCase`, `snake_case`,
    /// `SCREAMING_SNAKE_CASE`, `kebab-case`, `SCREAMING-KEBAB-CASE`.
    pub fn from_name(text: &str) -> (r: Option<RenameRule>)
        ensures
            r == rule_named(text@),
    {
        if same_text(text, "lowercase") { Some(RenameRule::LowerCase) }
        else if same_text(text, "UPPERCASE") { Some(RenameRule::UpperCase) }
        else if same_text(text, "PascalCase") { Some(RenameRule::PascalCase) }
        else if same_text(text, "camelCase") { Some(RenameRule::CamelCase) }
        else if same_text(text, "snake_case") { Some(RenameRule::SnakeCase) }
        else if same_text(text, "SCREAMING_SNAKE_CASE") { Some(RenameRule::ScreamingSnakeCase) }
        else if same_text(text, "kebab-case") { Some(RenameRule::KebabCase) }
        else if same_text(text, "SCREAMING-KEBAB-CASE") { Some(RenameRule::ScreamingKebabCase) }
        else { None }
    }

    /// The name a variant written as `variant` goes by under this rule.
    pub fn apply_to_variant(self, variant: &str) -> (r: String)
        requires
            self == RenameRule::CamelCase ==> starts_ascii(variant@),
        ensures
            r@ == variant_name(self, variant@),
    {
        match self {
            RenameRule::Unchanged | RenameRule::PascalCase => String::from_str(variant),
            RenameRule::LowerCase => map_chars(variant, false, false),
            RenameRule::UpperCase => map_chars(variant, true, false),
            RenameRule::CamelCase => lower_first_char(variant),
            RenameRule::SnakeCase => snake_variant(variant),
            RenameRule::ScreamingSnakeCase => {
                let snake = snake_variant(variant);
                map_chars(snake.as_str(), true, false)
            }
            RenameRule::KebabCase => {
                let snake = snake_variant(variant);
                map_chars(snake.as_str(), false, true)
            }
            RenameRule::ScreamingKebabCase => {
                let snake = snake_variant(variant);
                map_chars(snake.as_str(), true, true)
            }
        }
    }

    /// The name a field written as `field` goes by under this rule.
    pub fn apply_to_field(self, field: &str) -> (r: String)
        requires
            self == RenameRule::CamelCase ==> starts_ascii(pascal_of_field(field@)),
        ensures
            r@ == field_name(self, field@),
    {
        match self {
            RenameRule::Unchanged | RenameRule::LowerCase | RenameRule::SnakeCase => String::from_str(field),
            RenameRule::UpperCase | RenameRule::ScreamingSnakeCase => map_chars(field, true, false),
            RenameRule::PascalCase => pascal_field(field),
            RenameRule::CamelCase => {
                let pascal = pascal_field(field);
                lower_first_char(pascal.as_str())
            }
            RenameRule::KebabCase => {
                let r = map_chars(field, false, true);
                r
            }
            RenameRule::ScreamingKebabCase => map_chars(field, true, true),
        }
    }
}

/// The character `map_chars` produces for `c`.
pub open spec fn mapped_char(c: char, upper: bool, dash: bool) -> char {
    let d = if dash && c == '_' { '-' } else { c };
    if upper { ascii_upper(d) } else { d }
}

/// Every character mapped: `_` to `-` when `dash`, raised when `upper`.
pub open spec fn mapped(s: Seq<char>, upper: bool, dash: bool) -> Seq<char> {
    s.map_values(|c: char| mapped_char(c, upper, dash))
}

proof fn lemma_mapped(s: Seq<char>)
    ensures
        mapped(s, true, false) == upper_all(s),
        mapped(s, false, true) == dashed(s),
        mapped(s, true, true) == dashed(upper_all(s)),
{
    assert(mapped(s, true, false) =~= upper_all(s));
    assert(mapped(s, false, true) =~= dashed(s));
    assert forall|i: int| 0 <= i < s.len() implies #[trigger] mapped(s, true, true)[i] == dashed(upper_all(s))[i] by {
        let c = s[i];
        if c == '_' {
            assert(ascii_upper(c) == '_');
        }
    }
    assert(mapped(s, true, true) =~= dashed(upper_all(s)));
}


/// Every character of `text` mapped: `_` to `-` when `dash`, raised when
/// `upper` (lowered when neither).
fn map_chars(text: &str, upper: bool, dash: bool) -> (r: String)
    ensures
        (upper || dash) ==> r@ == mapped(text@, upper, dash),
        (!upper && !dash) ==> r@ == lower_all(text@),
        (upper && !dash) ==> r@ == upper_all(text@),
        (!upper && dash) ==> r@ == dashed(text@),
        (upper && dash) ==> r@ == dashed(upper_all(text@)),
{
    let n = text.unicode_len();
    let mut out = String::new();
    let mut i: usize = 0;
    while i < n
        invariant
            i <= n,
            n == text@.len(),
            out@.len() == i,
            forall|j: int| 0 <= j < i ==> (#[trigger] out@[j]) == (if !upper && !dash {
                ascii_lower(text@[j])
            } else {
                mapped_char(text@[j], upper, dash)
            }),
        decreases n - i,
    {
        let c = text.get_char(i);
        let d = if dash && c == '_' { '-' } else { c };
        let e = if upper { to_ascii_upper(d) } else if !dash { to_ascii_lower(d) } else { d };
        push_char(&mut out, e);
        i = i + 1;
    }
    proof {
        lemma_mapped(text@);
        if !upper && !dash {
            assert(out@ =~= lower_all(text@));
        } else {
            assert(out@ =~= mapped(text@, upper, dash));
        }
    }
    out
}

/// The first character lowered, the rest kept.
fn lower_first_char(text: &str) -> (r: String)
    requires
        starts_ascii(text@),
    ensures
        r@ == lower_first(text@),
{
    let n = text.unicode_len();
    let mut out = String::new();
    push_char(&mut out, to_ascii_lower(text.get_char(0)));
    out.append(text.substring_char(1, n));
    assert(out@ =~= lower_first(text@));
    out
}

/// A `PascalCase` name in `snake_case`.
fn snake_variant(text: &str) -> (r: String)
    ensures
        r@ == snake_of_variant(text@),
{
    let n = text.unicode_len();
    let mut out = String::new();
    let mut i: usize = 0;
    assert(text@.take(0) =~= Seq::<char>::empty());
    while i < n
        invariant
            i <= n,
            n == text@.len(),
            out@ == snake_of_variant(text@.take(i as int)),
        decreases n - i,
    {
        let c = text.get_char(i);
        if i > 0 && is_uppercase(c) {
            push_char(&mut out, '_');
        }
        push_char(&mut out, to_ascii_lower(c));
        assert(text@.take(i + 1).drop_last() =~= text@.take(i as int));
        i = i + 1;
    }
    assert(text@.take(n as int) =~= text@);
    out
}

/// A `snake_case` name in `PascalCase`.
fn pascal_field(text: &str) -> (r: String)
    ensures
        r@ == pascal_of_field(text@),
{
    let n = text.unicode_len();
    let mut out = String::new();
    let mut capitalize = true;
    let mut i: usize = 0;
    assert(text@.take(0) =~= Seq::<char>::empty());
    while i < n
        invariant
            i <= n,
            n == text@.len(),
            out@ == pascal_of_field(text@.take(i as int)),
            capitalize == (i == 0 || text@[i - 1] == '_'),
        decreases n - i,
    {
        let c = text.get_char(i);
        if c == '_' {
            capitalize = true;
        } else if capitalize {
            push_char(&mut out, to_ascii_upper(c));
            capitalize = false;
        } else {
            push_char(&mut out, c);
        }
        proof {
            let t = text@.take(i + 1);
            assert(t.drop_last() =~= text@.take(i as int));
            assert(t.last() == c);
            if i > 0 {
                assert(t[i - 1] == text@[i - 1]);
            }
        }
        i = i + 1;
    }
    assert(text@.take(n as int) =~= text@);
    out
}

} // verus!
