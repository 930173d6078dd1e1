//! The texts that errors and plans are shown with.

use crate::lazy::EngineError;
use crate::tensor::TensorFileError;
use crate::view::{Element, ViewError};
use vstd::prelude::*;

verus! {

/// A view error names the numbers that it is about.
pub proof fn law_view_error_messages(byte_len: usize, element_size: usize, required: usize)
    ensures
        (ViewError::SizeMismatch { byte_len, element_size }).message() == "byte length "@
            + crate::text::decimal(byte_len as nat) + " is not a multiple of element size "@
            + crate::text::decimal(element_size as nat),
        (ViewError::Misaligned { required }).message() == "storage is not aligned to "@
            + crate::text::decimal(required as nat) + " bytes"@,
        ViewError::ReadOnly.message()
            == "storage is read-only (memory-mapped or shared); promote it with Storage::make_mut"@,
{
}

/// A file error names its cause.
pub proof fn law_file_error_messages(reason: String, error: ViewError)
    ensures
        TensorFileError::Io(reason).message() == "cannot map file: "@ + reason@,
        TensorFileError::View(error).message() == "file bytes do not form a tensor: "@
            + error.message(),
{
}

/// An execution error names its cause, if it has one.
pub proof fn law_engine_error_messages(reason: String, error: TensorFileError)
    ensures
        EngineError::Source(error).message() == "cannot open plan source: "@ + error.message(),
        EngineError::Io(reason).message() == "sink failed: "@ + reason@,
        EngineError::SinkIntoSource.message() == "cannot sink into a file the plan is scanning"@,
        EngineError::LengthMismatch.message()
            == "length mismatch: one side of a binary operation ended before the other"@,
{
}

/// On one line, a text keeps every character but the line breaks, which become
/// spaces.
pub proof fn law_unbroken(text: Seq<char>, i: int)
    requires
        0 <= i < text.len(),
    ensures
        crate::lazy::unbroken(text).len() == text.len(),
        text[i] == '\n' ==> crate::lazy::unbroken(text)[i] == ' ',
        text[i] != '\n' ==> crate::lazy::unbroken(text)[i] == text[i],
{
}

/// Plans name the integer types as they are written.
pub proof fn law_type_labels()
    ensures
        <u8 as Element>::type_label() == "u8"@,
        <u16 as Element>::type_label() == "u16"@,
        <u32 as Element>::type_label() == "u32"@,
        <u64 as Element>::type_label() == "u64"@,
        <u128 as Element>::type_label() == "u128"@,
        <usize as Element>::type_label() == "usize"@,
        <i8 as Element>::type_label() == "i8"@,
        <i16 as Element>::type_label() == "i16"@,
        <i32 as Element>::type_label() == "i32"@,
        <i64 as Element>::type_label() == "i64"@,
        <i128 as Element>::type_label() == "i128"@,
        <isize as Element>::type_label() == "isize"@,
{
}

} // verus!
