//! The media type of a file, guessed from its name by `mime_guess`.

use vstd::prelude::*;

verus! {

#[verifier::external_type_specification]
#[verifier::external_body]
pub struct ExMimeGuess(mime_guess::MimeGuess);

/// The media types that a `mime_guess::MimeGuess` holds, the likeliest
/// first, each as the text that its `Mime` writes.
pub uninterp spec fn guesses(guess: mime_guess::MimeGuess) -> Seq<Seq<char>>;

/// The media types that `mime_guess::from_path` finds for a file of the name
/// `path`, the likeliest first. They come from the table of the `mime_guess`
/// that the library is built with.
pub uninterp spec fn guessed_types(path: Seq<char>) -> Seq<Seq<char>>;

/// The first of `types`, or `application/octet-stream` where there is none.
pub open spec fn first_or_octet_stream_of(types: Seq<Seq<char>>) -> Seq<char> {
    if types.len() > 0 {
        types[0]
    } else {
        "application/octet-stream"@
    }
}

/// The media type under which a file of the name `path` is sent.
pub open spec fn guessed_mime(path: Seq<char>) -> Seq<char> {
    first_or_octet_stream_of(guessed_types(path))
}

/// Calls `mime_guess::from_path`, which looks the extension of `path` up in
/// a table and touches no file. The guess is a function of the path alone.
#[verifier::external_body]
pub(crate) fn guess_from_path(path: &str) -> (guess: mime_guess::MimeGuess)
    ensures
        guesses(guess) == guessed_types(path@),
{
    mime_guess::from_path(path)
}

/// Calls `first_or_octet_stream` of `mime_guess::MimeGuess`: the first media
/// type of the guess, or `application/octet-stream` for an empty guess,
/// written as text.
#[verifier::external_body]
pub(crate) fn first_or_octet_stream(guess: &mime_guess::MimeGuess) -> (mime: String)
    ensures
        mime@ == first_or_octet_stream_of(guesses(*guess)),
{
    guess.first_or_octet_stream().to_string()
}

/// Guesses the media type of a file from its name `path`.
pub fn guess_mime(path: &str) -> (mime: String)
    ensures
        mime@ == guessed_mime(path@),
{
    let guess = guess_from_path(path);
    first_or_octet_stream(&guess)
}

} // verus!
