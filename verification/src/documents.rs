//! Reading documents: which way a file is read, what is said where that
//! fails, and how much of its text a model is shown.

use vstd::prelude::*;
use vstd::string::*;

use crate::json::{Json, JsonModel};
use crate::paths::{is_pdf_model, is_pdf_path};
use crate::text::{decimal, decimal_model, join, join3};
use crate::tools::{argument_model, one_text_tool, text_argument, text_result, tool_model};
use crate::tools::ToolSpec;

verus! {

/// The way a file is read.
#[derive(Debug, Clone, Copy, PartialEq, Eq, Structural)]
pub enum DocumentKind {
    /// With a text extractor.
    Pdf,
    /// As text in UTF-8.
    Text,
}

/// What came of reading a file.
#[derive(Debug, PartialEq, Eq)]
pub enum DocumentRead {
    /// Its text.
    Read(String),
    /// The extractor refused it, for this reason.
    PdfRefused(String),
    /// The extractor panicked, as described.
    PdfPanicked(String),
    /// It could not be read as text, for this reason.
    NotText(String),
}

pub open spec fn kind_model(path: Seq<char>) -> DocumentKind {
    if is_pdf_model(path) {
        DocumentKind::Pdf
    } else {
        DocumentKind::Text
    }
}

/// The way the file at `path` is to be read, or the complaint where there is
/// none.
pub open spec fn plan_model(path: Seq<char>, exists_there: bool) -> Result<
    DocumentKind,
    Seq<char>,
> {
    if exists_there {
        Ok(kind_model(path))
    } else {
        Err("file not found: "@ + path)
    }
}

/// The way the file at `path` is to be read, or the complaint where there is
/// none.
pub fn plan_document(path: &str, exists_there: bool) -> (r: Result<DocumentKind, String>)
    ensures
        (match r {
            Ok(kind) => Ok(kind),
            Err(e) => Err(e@),
        }) == plan_model(path@, exists_there),
{
    if !exists_there {
        Err(join("file not found: ", path))
    } else if is_pdf_path(path) {
        Ok(DocumentKind::Pdf)
    } else {
        Ok(DocumentKind::Text)
    }
}

/// The whole text of the document at `path`, or the complaint, given what came
/// of reading it.
pub open spec fn extract_model(path: Seq<char>, read: DocumentRead) -> Result<
    Seq<char>,
    Seq<char>,
> {
    match read {
        DocumentRead::Read(text) => Ok(text@),
        DocumentRead::PdfRefused(e) => Err(
            "failed to extract PDF text from "@ + path + ": "@ + e@,
        ),
        DocumentRead::PdfPanicked(e) => Err("pdf extraction task panicked: "@ + e@),
        DocumentRead::NotText(e) => Err(
            "failed to read "@ + path
                + " as text (not a .pdf, and not valid UTF-8 text — DOCX/XLSX/PPTX aren't supported yet): "@
                + e@,
        ),
    }
}

/// The whole text of the document at `path`, or the complaint, given what came
/// of reading it.
pub fn extract_document_text(path: &str, read: DocumentRead) -> (r: Result<String, String>)
    ensures
        text_result(r) == extract_model(path@, read),
{
    match read {
        DocumentRead::Read(text) => Ok(text),
        DocumentRead::PdfRefused(e) => {
            let mut m = join3("failed to extract PDF text from ", path, ": ");
            m.append(e.as_str());
            Err(m)
        },
        DocumentRead::PdfPanicked(e) => Err(join("pdf extraction task panicked: ", e.as_str())),
        DocumentRead::NotText(e) => {
            let mut m = join3(
                "failed to read ",
                path,
                " as text (not a .pdf, and not valid UTF-8 text — DOCX/XLSX/PPTX aren't supported yet): ",
            );
            m.append(e.as_str());
            Err(m)
        },
    }
}

/// The most characters of a document that a model is shown.
pub const MAX_DOC_CHARS: usize = 100_000;

/// The note after a text of `n` characters that was cut.
pub open spec fn truncation_note(n: nat) -> Seq<char> {
    "\n\n[...truncated: document is "@ + decimal_model(n) + " characters, exceeds the "@
        + decimal_model(MAX_DOC_CHARS as nat) + "-character preview limit...]"@
}

/// What a model is shown of a document: all of it, or its start and a note.
pub open spec fn preview_model(text: Seq<char>) -> Seq<char> {
    if text.len() > MAX_DOC_CHARS {
        text.take(MAX_DOC_CHARS as int) + truncation_note(text.len())
    } else {
        text
    }
}

/// What a model is shown of a document: all of it, or its start and a note.
pub fn preview_document(text: String) -> (r: String)
    ensures
        r@ == preview_model(text@),
{
    let n: usize = text.as_str().unicode_len();
    if n > MAX_DOC_CHARS {
        let mut note = join3(
            "\n\n[...truncated: document is ",
            decimal(n as u64).as_str(),
            " characters, exceeds the ",
        );
        note.append(decimal(MAX_DOC_CHARS as u64).as_str());
        note.append("-character preview limit...]");
        proof {
            assert(text@.subrange(0, MAX_DOC_CHARS as int) =~= text@.take(MAX_DOC_CHARS as int));
        }
        join(text.as_str().substring_char(0, MAX_DOC_CHARS), note.as_str())
    } else {
        text
    }
}

/// The tool with which a model reads a document.
pub fn build_read_document_tool() -> (r: ToolSpec)
    ensures
        r@ == tool_model(
            "read_document"@,
            "Read Document"@,
            "Read and extract text from a document file on disk so it can be summarized or used to answer questions. Supports PDF (real text extraction, not raw bytes) and plain text files (.txt, .md, code, etc). Not yet supported: DOCX, XLSX, PPTX — returns a clear error for those."@,
            "path"@,
            "Absolute path, or path relative to the current working directory, to the document to read."@,
        ),
{
    one_text_tool(
        "read_document",
        "Read Document",
        "Read and extract text from a document file on disk so it can be summarized or used to answer questions. Supports PDF (real text extraction, not raw bytes) and plain text files (.txt, .md, code, etc). Not yet supported: DOCX, XLSX, PPTX — returns a clear error for those.",
        "path",
        "Absolute path, or path relative to the current working directory, to the document to read.",
    )
}

/// The document that a call of the tool with `args` asks for.
pub open spec fn asked_document(args: JsonModel) -> Result<Seq<char>, Seq<char>> {
    argument_model(args, "path"@, "missing required 'path' argument"@)
}

/// The document that a call of the tool with `args` asks for.
pub fn read_document_call(args: &Json) -> (r: Result<String, String>)
    ensures
        text_result(r) == asked_document(args@),
{
    text_argument(args, "path", "missing required 'path' argument")
}

/// A model is shown a document from its start, never more of it than the
/// limit, and all of one within the limit.
pub proof fn law_preview_is_a_bounded_start(text: Seq<char>)
    ensures
        text.len() <= MAX_DOC_CHARS ==> preview_model(text) == text,
        text.len() > MAX_DOC_CHARS ==> {
            &&& preview_model(text).take(MAX_DOC_CHARS as int) == text.take(MAX_DOC_CHARS as int)
            &&& preview_model(text).skip(MAX_DOC_CHARS as int) == truncation_note(text.len())
        },
{
    if text.len() > MAX_DOC_CHARS {
        let n = MAX_DOC_CHARS as int;
        assert(preview_model(text).take(n) =~= text.take(n));
        assert(preview_model(text).skip(n) =~= truncation_note(text.len()));
    }
}

/// A file that is there is read, with the extractor exactly where its path
/// names a PDF; one that is not there is complained of by its path.
pub proof fn law_files_are_read_by_kind(path: Seq<char>)
    ensures
        plan_model(path, true) is Ok,
        plan_model(path, true)->Ok_0 == DocumentKind::Pdf <==> is_pdf_model(path),
        plan_model(path, false) == Err::<DocumentKind, Seq<char>>("file not found: "@ + path),
{
}

/// What was read of a document is handed on whole, whatever its length; where
/// nothing was, the complaint says why and, but for a panic, of which file.
pub proof fn law_documents_are_read_whole(path: Seq<char>, text: String, reason: String)
    ensures
        extract_model(path, DocumentRead::Read(text)) == Ok::<Seq<char>, Seq<char>>(text@),
        extract_model(path, DocumentRead::PdfRefused(reason)) == Err::<Seq<char>, Seq<char>>(
            "failed to extract PDF text from "@ + path + ": "@ + reason@,
        ),
        extract_model(path, DocumentRead::PdfPanicked(reason)) == Err::<Seq<char>, Seq<char>>(
            "pdf extraction task panicked: "@ + reason@,
        ),
        extract_model(path, DocumentRead::NotText(reason)) is Err,
        ("failed to read "@ + path + " as text ("@).is_prefix_of(
            extract_model(path, DocumentRead::NotText(reason))->Err_0,
        ),
        reason@.is_suffix_of(extract_model(path, DocumentRead::NotText(reason))->Err_0),
{
    reveal_strlit(" as text (");
    reveal_strlit(
        " as text (not a .pdf, and not valid UTF-8 text — DOCX/XLSX/PPTX aren't supported yet): ",
    );
    let start = "failed to read "@ + path + " as text ("@;
    let said = extract_model(path, DocumentRead::NotText(reason))->Err_0;
    let words =
        " as text (not a .pdf, and not valid UTF-8 text — DOCX/XLSX/PPTX aren't supported yet): "@;
    assert(said == "failed to read "@ + path + words + reason@);
    assert(" as text ("@ =~= words.take(10));
    assert(start =~= said.take(start.len() as int));
    assert(reason@ =~= said.skip(said.len() - reason@.len()));
}

/// What a model is shown of a long document is a hundred thousand characters of
/// it and a note that tells how long it is; of any other, all of it.
pub proof fn law_a_cut_document_says_its_length(text: Seq<char>)
    ensures
        text.len() <= 100_000 ==> preview_model(text) == text,
        text.len() > 100_000 ==> {
            &&& text.take(100_000).is_prefix_of(preview_model(text))
            &&& ("\n\n[...truncated: document is "@ + decimal_model(text.len())
                + " characters, exceeds the 100000-character preview limit...]"@)
                == preview_model(text).skip(100_000)
        },
{
    if text.len() > 100_000 {
        law_preview_is_a_bounded_start(text);
        reveal_strlit(" characters, exceeds the ");
        reveal_strlit("-character preview limit...]");
        reveal_strlit(" characters, exceeds the 100000-character preview limit...]");
        reveal_with_fuel(decimal_model, 7);
        assert(decimal_model(100_000) =~= seq!['1', '0', '0', '0', '0', '0']);
        let tail = " characters, exceeds the 100000-character preview limit...]"@;
        assert(tail =~= " characters, exceeds the "@ + decimal_model(100_000)
            + "-character preview limit...]"@);
        assert(truncation_note(text.len()) =~= "\n\n[...truncated: document is "@ + decimal_model(
            text.len(),
        ) + tail);
        assert(preview_model(text).take(100_000) =~= text.take(100_000));
    }
}

/// The document that is read is the one whose path the call gives.
pub proof fn law_the_asked_document_is_read(args: JsonModel, path: Seq<char>)
    ensures
        args.member("path"@) == Some(JsonModel::Text(path)) ==> asked_document(args) == Ok::<
            Seq<char>,
            Seq<char>,
        >(path),
        args.member("path"@) is None || !(args.member("path"@)->0 is Text) ==> asked_document(args)
            == Err::<Seq<char>, Seq<char>>("missing required 'path' argument"@),
{
}

} // verus!
