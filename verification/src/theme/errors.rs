//! What can go wrong in a theme check.
use vstd::prelude::*;
use vstd::string::*;

verus! {

/// Why a theme check could not be carried out.
#[derive(Debug)]
pub enum ThemeError {
    /// Neither a theme file nor a glob was given.
    NothingGiven,
    /// A theme file that was named does not exist.
    FileMissing(String),
    /// A glob is an absolute path.
    AbsoluteGlob(String),
    /// A glob is not well formed; the second text says why.
    InvalidGlob(String, String),
    /// The globs cannot be used together; the text says why.
    UnusableGlobs(String),
    /// No file was named or matched.
    NothingMatched,
    /// The source has no struct of this name.
    StructMissing(String),
    /// The struct of this name has no opening brace.
    OpeningBraceMissing(String),
    /// The struct of this name has no closing brace.
    ClosingBraceMissing(String),
    /// A search pattern is not well formed; the text says why.
    InvalidPattern(String),
    /// A file could not be read; the second text says why.
    Unreadable(String, String),
    /// A theme file could not be read; the second text says why.
    ThemeUnreadable(String, String),
    /// A theme file is not JSON; the second text says why.
    Unparsable(String, String),
    /// A theme file has no array of themes.
    ThemesMissing(String),
    /// The theme of this name has no style object.
    StyleMissing(String),
    /// A kind of failure that is not known.
    UnsupportedFailKind(String),
}

/// `text` between two other texts.
fn around(before: &str, text: &str, after: &str) -> (r: String)
    ensures
        r@ == before@ + text@ + after@,
{
    let mut s = before.to_owned();
    s.append(text);
    s.append(after);
    s
}

impl ThemeError {
    /// The message that describes the error.
    pub open spec fn message_text(self) -> Seq<char> {
        match self {
            ThemeError::NothingGiven => "provide at least one --theme or --theme-glob"@,
            ThemeError::FileMissing(path) => "theme file does not exist: "@ + path@,
            ThemeError::AbsoluteGlob(glob) => "absolute --theme-glob is not supported: "@ + glob@,
            ThemeError::InvalidGlob(glob, cause) => "invalid glob: "@ + glob@ + (": "@ + cause@),
            ThemeError::UnusableGlobs(cause) => cause@,
            ThemeError::NothingMatched => "no theme files matched"@,
            ThemeError::StructMissing(name) => "could not find struct "@ + name@,
            ThemeError::OpeningBraceMissing(name) => "could not find opening brace for struct "@
                + name@,
            ThemeError::ClosingBraceMissing(name) => "could not find closing brace for struct "@
                + name@,
            ThemeError::InvalidPattern(cause) => cause@,
            ThemeError::Unreadable(path, cause) => "failed to read "@ + path@ + (": "@ + cause@),
            ThemeError::ThemeUnreadable(path, cause) => "failed to read theme file "@ + path@ + (
            ": "@ + cause@),
            ThemeError::Unparsable(path, cause) => "failed to parse theme file "@ + path@ + (": "@
                + cause@),
            ThemeError::ThemesMissing(path) => "theme family file missing 'themes' array: "@
                + path@,
            ThemeError::StyleMissing(name) => "theme '"@ + name@ + "' has no object 'style'"@,
            ThemeError::UnsupportedFailKind(kind) => "unsupported --fail-on kind: "@ + kind@,
        }
    }

    /// The message that describes the error.
    pub fn message(&self) -> (r: String)
        ensures
            r@ == self.message_text(),
    {
        proof {
            reveal_strlit("");
        }
        let r = match self {
            ThemeError::NothingGiven => "provide at least one --theme or --theme-glob".to_owned(),
            ThemeError::FileMissing(path) => around("theme file does not exist: ", path.as_str(), ""),
            ThemeError::AbsoluteGlob(glob) => around(
                "absolute --theme-glob is not supported: ",
                glob.as_str(),
                "",
            ),
            ThemeError::InvalidGlob(glob, cause) => around(
                "invalid glob: ",
                glob.as_str(),
                around(": ", cause.as_str(), "").as_str(),
            ),
            ThemeError::UnusableGlobs(cause) => cause.clone(),
            ThemeError::NothingMatched => "no theme files matched".to_owned(),
            ThemeError::StructMissing(name) => around("could not find struct ", name.as_str(), ""),
            ThemeError::OpeningBraceMissing(name) => around(
                "could not find opening brace for struct ",
                name.as_str(),
                "",
            ),
            ThemeError::ClosingBraceMissing(name) => around(
                "could not find closing brace for struct ",
                name.as_str(),
                "",
            ),
            ThemeError::InvalidPattern(cause) => cause.clone(),
            ThemeError::Unreadable(path, cause) => around(
                "failed to read ",
                path.as_str(),
                around(": ", cause.as_str(), "").as_str(),
            ),
            ThemeError::ThemeUnreadable(path, cause) => around(
                "failed to read theme file ",
                path.as_str(),
                around(": ", cause.as_str(), "").as_str(),
            ),
            ThemeError::Unparsable(path, cause) => around(
                "failed to parse theme file ",
                path.as_str(),
                around(": ", cause.as_str(), "").as_str(),
            ),
            ThemeError::ThemesMissing(path) => around(
                "theme family file missing 'themes' array: ",
                path.as_str(),
                "",
            ),
            ThemeError::StyleMissing(name) => around(
                "theme '",
                name.as_str(),
                "' has no object 'style'",
            ),
            ThemeError::UnsupportedFailKind(kind) => around(
                "unsupported --fail-on kind: ",
                kind.as_str(),
                "",
            ),
        };
        assert(r@ =~= self.message_text());
        r
    }
}

/// A message ends with what it is about. What stands before that is the same whatever it is about.
pub proof fn messages_end_with_what_they_are_about(a: String, none: String)
    requires
        none@.len() == 0,
    ensures
        ThemeError::FileMissing(a).message_text() == ThemeError::FileMissing(none).message_text()
            + a@,
        ThemeError::AbsoluteGlob(a).message_text() == ThemeError::AbsoluteGlob(none).message_text()
            + a@,
        ThemeError::StructMissing(a).message_text() == ThemeError::StructMissing(
            none,
        ).message_text() + a@,
        ThemeError::OpeningBraceMissing(a).message_text() == ThemeError::OpeningBraceMissing(
            none,
        ).message_text() + a@,
        ThemeError::ClosingBraceMissing(a).message_text() == ThemeError::ClosingBraceMissing(
            none,
        ).message_text() + a@,
        ThemeError::ThemesMissing(a).message_text() == ThemeError::ThemesMissing(
            none,
        ).message_text() + a@,
        ThemeError::UnsupportedFailKind(a).message_text() == ThemeError::UnsupportedFailKind(
            none,
        ).message_text() + a@,
        ThemeError::UnusableGlobs(a).message_text() == a@,
        ThemeError::InvalidPattern(a).message_text() == a@,
        ThemeError::StyleMissing(a).message_text() == "theme '"@ + a@ + "' has no object 'style'"@,
{
    assert(none@ =~= Seq::empty());
    assert(forall|s: Seq<char>| #[trigger] (s + none@) =~= s);
}

/// A message about something with a cause ends with the cause. Without one it ends with what it is
/// about, a colon and a space.
pub proof fn messages_end_with_the_cause(a: String, cause: String, none: String)
    requires
        none@.len() == 0,
    ensures
        ThemeError::InvalidGlob(a, cause).message_text() == ThemeError::InvalidGlob(
            a,
            none,
        ).message_text() + cause@,
        ThemeError::Unreadable(a, cause).message_text() == ThemeError::Unreadable(
            a,
            none,
        ).message_text() + cause@,
        ThemeError::ThemeUnreadable(a, cause).message_text() == ThemeError::ThemeUnreadable(
            a,
            none,
        ).message_text() + cause@,
        ThemeError::Unparsable(a, cause).message_text() == ThemeError::Unparsable(
            a,
            none,
        ).message_text() + cause@,
        ThemeError::InvalidGlob(a, none).message_text() == "invalid glob: "@ + a@ + ": "@,
        ThemeError::Unreadable(a, none).message_text() == "failed to read "@ + a@ + ": "@,
        ThemeError::ThemeUnreadable(a, none).message_text() == "failed to read theme file "@ + a@
            + ": "@,
        ThemeError::Unparsable(a, none).message_text() == "failed to parse theme file "@ + a@
            + ": "@,
{
    assert(none@ =~= Seq::empty());
    let colon = ": "@;
    assert(colon + none@ =~= colon);
    assert forall|s: Seq<char>| #[trigger] (s + (colon + cause@)) == (s + (colon + none@))
        + cause@ by {
        assert(s + (colon + cause@) =~= (s + (colon + none@)) + cause@);
    }
}

} // verus!
