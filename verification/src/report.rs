//! The formatting functions of `std`, and what it means to have called them.
//!
//! What a formatter makes of a call is its own affair. What can be said is which
//! call it got: the spec functions here say of a mutable reference, with the value
//! behind it before and after, that it is one that such a call was given.

use std::fmt;
use vstd::prelude::*;

verus! {

/// The sink that `Display` and `Debug` write to.
#[verifier::external_type_specification]
#[verifier::external_body]
pub struct ExFormatter<'a>(std::fmt::Formatter<'a>);

/// The error of a formatted write, which carries nothing.
#[verifier::external_type_specification]
#[verifier::external_body]
pub struct ExFmtError(std::fmt::Error);

/// A struct that is being written for `Debug`.
#[verifier::external_type_specification]
#[verifier::external_body]
pub struct ExDebugStruct<'a, 'b: 'a>(std::fmt::DebugStruct<'a, 'b>);

/// `Display::fmt` on `str`: writes the text as the formatter asks for it.
#[verifier::external_body]
pub(crate) fn display_str(text: &str, formatter: &mut fmt::Formatter<'_>) -> (done: fmt::Result) {
    fmt::Display::fmt(text, formatter)
}

/// `Debug::fmt` on `str`: writes the text quoted and escaped.
#[verifier::external_body]
pub(crate) fn debug_str(text: &str, formatter: &mut fmt::Formatter<'_>) -> (done: fmt::Result) {
    fmt::Debug::fmt(text, formatter)
}

/// `Formatter::debug_struct`: starts to write a struct with this name.
#[verifier::external_body]
pub(crate) fn debug_struct<'a, 'b>(
    formatter: &'a mut fmt::Formatter<'b>,
    name: &str,
) -> (output: fmt::DebugStruct<'a, 'b>) {
    formatter.debug_struct(name)
}

/// `DebugStruct::field` on a number.
#[verifier::external_body]
pub(crate) fn number_field(output: &mut fmt::DebugStruct<'_, '_>, name: &str, value: usize) {
    output.field(name, &value);
}

/// `DebugStruct::field` on a truth value.
#[verifier::external_body]
pub(crate) fn flag_field(output: &mut fmt::DebugStruct<'_, '_>, name: &str, value: bool) {
    output.field(name, &value);
}

/// `DebugStruct::finish`: ends the struct.
#[verifier::external_body]
pub(crate) fn finish(output: &mut fmt::DebugStruct<'_, '_>) -> (done: fmt::Result) {
    output.finish()
}

/// `DebugStruct::finish_non_exhaustive`: ends the struct with a sign that it has
/// fields that are not shown.
#[verifier::external_body]
pub(crate) fn finish_non_exhaustive(output: &mut fmt::DebugStruct<'_, '_>) -> (done: fmt::Result) {
    output.finish_non_exhaustive()
}

/// Whether `Display::fmt` was called on a `str` with this text, with this formatter,
/// and returned `done`.
pub closed spec fn displayed(
    chars: Seq<char>,
    formatter: &mut fmt::Formatter<'_>,
    done: fmt::Result,
) -> bool {
    exists|text: &str| #[trigger]
        call_ensures(display_str, (text, formatter), done) && text@ == chars
}

/// Whether `Debug::fmt` was called on a `str` with this text, with this formatter,
/// and returned `done`.
pub closed spec fn debugged(
    chars: Seq<char>,
    formatter: &mut fmt::Formatter<'_>,
    done: fmt::Result,
) -> bool {
    exists|text: &str| #[trigger]
        call_ensures(debug_str, (text, formatter), done) && text@ == chars
}

/// Whether `Formatter::debug_struct` was called on this formatter for a struct of
/// this name, and returned `output`.
pub closed spec fn opened<'a, 'b>(
    name: Seq<char>,
    formatter: &'a mut fmt::Formatter<'b>,
    output: fmt::DebugStruct<'a, 'b>,
) -> bool {
    exists|text: &str| #[trigger]
        call_ensures(debug_struct, (formatter, text), output) && text@ == name
}

/// Whether `DebugStruct::field` was called with this name and this number.
pub closed spec fn numbered(
    name: Seq<char>,
    value: usize,
    output: &mut fmt::DebugStruct<'_, '_>,
) -> bool {
    exists|text: &str| #[trigger]
        call_ensures(number_field, (output, text, value), ()) && text@ == name
}

/// Whether `DebugStruct::field` was called with this name and this truth value.
pub closed spec fn flagged(
    name: Seq<char>,
    value: bool,
    output: &mut fmt::DebugStruct<'_, '_>,
) -> bool {
    exists|text: &str| #[trigger]
        call_ensures(flag_field, (output, text, value), ()) && text@ == name
}

/// Whether `DebugStruct::finish` was called and returned `done`.
pub closed spec fn finished(output: &mut fmt::DebugStruct<'_, '_>, done: fmt::Result) -> bool {
    call_ensures(finish, (output,), done)
}

/// Whether `DebugStruct::finish_non_exhaustive` was called and returned `done`.
pub closed spec fn finished_non_exhaustive(
    output: &mut fmt::DebugStruct<'_, '_>,
    done: fmt::Result,
) -> bool {
    call_ensures(finish_non_exhaustive, (output,), done)
}

fn call_one<A, R, F: Fn(A) -> R>(f: F, a: A) -> (result: R)
    requires
        call_requires(f, (a,)),
    ensures
        call_ensures(f, (a,), result),
{
    f(a)
}

/// Calls a function and knows of the call.
pub(crate) fn call_two<A, B, R, F: Fn(A, B) -> R>(f: F, a: A, b: B) -> (result: R)
    requires
        call_requires(f, (a, b)),
    ensures
        call_ensures(f, (a, b), result),
{
    f(a, b)
}

fn call_three<A, B, C, R, F: Fn(A, B, C) -> R>(f: F, a: A, b: B, c: C) -> (result: R)
    requires
        call_requires(f, (a, b, c)),
    ensures
        call_ensures(f, (a, b, c), result),
{
    f(a, b, c)
}

/// Displays a text.
pub(crate) fn display(text: &str, formatter: &mut fmt::Formatter<'_>) -> (done: fmt::Result)
    ensures
        exists|sink: &mut fmt::Formatter<'_>| #[trigger]
            displayed(text@, sink, done) && *sink == *old(formatter) && *final(sink) == *final(formatter),
{
    let done: fmt::Result = call_two(display_str, text, formatter);
    proof {
        let sink = choose|sink: &mut fmt::Formatter<'_>| #[trigger]
            call_ensures(display_str, (text, sink), done) && *sink == *old(formatter) && *final(sink) == *final(formatter);
        assert(displayed(text@, sink, done));
    }
    done
}

/// Displays a text for debugging.
pub(crate) fn debug(text: &str, formatter: &mut fmt::Formatter<'_>) -> (done: fmt::Result)
    ensures
        exists|sink: &mut fmt::Formatter<'_>| #[trigger]
            debugged(text@, sink, done) && *sink == *old(formatter) && *final(sink) == *final(formatter),
{
    let done: fmt::Result = call_two(debug_str, text, formatter);
    proof {
        let sink = choose|sink: &mut fmt::Formatter<'_>| #[trigger]
            call_ensures(debug_str, (text, sink), done) && *sink == *old(formatter) && *final(sink)
                == *final(formatter);
        assert(debugged(text@, sink, done));
    }
    done
}

/// Starts to write a struct.
pub(crate) fn open_struct<'a, 'b>(formatter: &'a mut fmt::Formatter<'b>, name: &str) -> (output:
    fmt::DebugStruct<'a, 'b>)
    ensures
        exists|sink: &mut fmt::Formatter<'b>| #[trigger]
            opened(name@, sink, output) && *sink == *old(formatter) && *final(sink) == *final(formatter),
{
    let output: fmt::DebugStruct<'a, 'b> = call_two(debug_struct, formatter, name);
    proof {
        let sink = choose|sink: &mut fmt::Formatter<'b>| #[trigger]
            call_ensures(debug_struct, (sink, name), output) && *sink == *old(formatter) && *final(sink) == *final(formatter);
        assert(opened(name@, sink, output));
    }
    output
}

/// Writes a field that is a number.
pub(crate) fn put_number(output: &mut fmt::DebugStruct<'_, '_>, name: &str, value: usize)
    ensures
        exists|sink: &mut fmt::DebugStruct<'_, '_>| #[trigger]
            numbered(name@, value, sink) && *sink == *old(output) && *final(sink) == *final(output),
{
    call_three(number_field, output, name, value);
    proof {
        let sink = choose|sink: &mut fmt::DebugStruct<'_, '_>| #[trigger]
            call_ensures(number_field, (sink, name, value), ()) && *sink == *old(output) && *final(sink) == *final(output);
        assert(numbered(name@, value, sink));
    }
}

/// Writes a field that is a truth value.
pub(crate) fn put_flag(output: &mut fmt::DebugStruct<'_, '_>, name: &str, value: bool)
    ensures
        exists|sink: &mut fmt::DebugStruct<'_, '_>| #[trigger]
            flagged(name@, value, sink) && *sink == *old(output) && *final(sink) == *final(output),
{
    call_three(flag_field, output, name, value);
    proof {
        let sink = choose|sink: &mut fmt::DebugStruct<'_, '_>| #[trigger]
            call_ensures(flag_field, (sink, name, value), ()) && *sink == *old(output) && *final(sink) == *final(output);
        assert(flagged(name@, value, sink));
    }
}

/// Ends a struct.
pub(crate) fn close_struct(output: &mut fmt::DebugStruct<'_, '_>) -> (done: fmt::Result)
    ensures
        exists|sink: &mut fmt::DebugStruct<'_, '_>| #[trigger]
            finished(sink, done) && *sink == *old(output) && *final(sink) == *final(output),
{
    let done: fmt::Result = call_one(finish, output);
    proof {
        let sink = choose|sink: &mut fmt::DebugStruct<'_, '_>| #[trigger]
            call_ensures(finish, (sink,), done) && *sink == *old(output) && *final(sink) == *final(output);
        assert(finished(sink, done));
    }
    done
}

/// Ends a struct that has fields that are not shown.
pub(crate) fn close_struct_non_exhaustive(output: &mut fmt::DebugStruct<'_, '_>) -> (done:
    fmt::Result)
    ensures
        exists|sink: &mut fmt::DebugStruct<'_, '_>| #[trigger]
            finished_non_exhaustive(sink, done) && *sink == *old(output) && *final(sink) == *final(output),
{
    let done: fmt::Result = call_one(finish_non_exhaustive, output);
    proof {
        let sink = choose|sink: &mut fmt::DebugStruct<'_, '_>| #[trigger]
            call_ensures(finish_non_exhaustive, (sink,), done) && *sink == *old(output) && *final(sink) == *final(output);
        assert(finished_non_exhaustive(sink, done));
    }
    done
}

/// What is displayed, or displayed for debugging, is the text, with the formatter at hand.
pub(crate) proof fn displaying_shows_the_text(
    chars: Seq<char>,
    formatter: &mut fmt::Formatter<'_>,
    done: fmt::Result,
)
    ensures
        displayed(chars, formatter, done) <==> exists|text: &str| #[trigger]
            call_ensures(display_str, (text, formatter), done) && text@ == chars,
        debugged(chars, formatter, done) <==> exists|text: &str| #[trigger]
            call_ensures(debug_str, (text, formatter), done) && text@ == chars,
{
}

/// A struct is opened under its name, with the formatter at hand.
pub(crate) proof fn opening_names_the_struct<'a, 'b>(
    name: Seq<char>,
    formatter: &'a mut fmt::Formatter<'b>,
    output: fmt::DebugStruct<'a, 'b>,
)
    ensures
        opened(name, formatter, output) <==> exists|text: &str| #[trigger]
            call_ensures(debug_struct, (formatter, text), output) && text@ == name,
{
}

/// A field is written with its name and its value, to the struct at hand, and the struct
/// is closed by the call that was made.
pub(crate) proof fn fields_carry_their_values(
    name: Seq<char>,
    number: usize,
    flag: bool,
    output: &mut fmt::DebugStruct<'_, '_>,
    done: fmt::Result,
)
    ensures
        numbered(name, number, output) <==> exists|text: &str| #[trigger]
            call_ensures(number_field, (output, text, number), ()) && text@ == name,
        flagged(name, flag, output) <==> exists|text: &str| #[trigger]
            call_ensures(flag_field, (output, text, flag), ()) && text@ == name,
        finished(output, done) <==> call_ensures(finish, (output,), done),
        finished_non_exhaustive(output, done) <==> call_ensures(
            finish_non_exhaustive,
            (output,),
            done,
        ),
{
}

} // verus!
