//! Turning the text extracted from a file into a loaded document.
use vstd::prelude::*;
use crate::links::{replace_all, replace_chars};
use crate::models::{LoadedFile, RagProcessableFileType};
use crate::text::{chars_of, string_of, string_views};

verus! {

/// Loads PDF files: their pages' text, in page order, becomes the document.
#[derive(Debug, Clone, Copy)]
pub struct PdfFileLoader;

/// The marker the PDF text extractor leaves for text it cannot decode.
pub const UNDECODED_MARKER: &'static str = "?Identity-H Unimplemented?";

/// The document text of pages `ps`: each page with the undecoded-text markers
/// removed, concatenated in order.
pub open spec fn pdf_text(ps: Seq<Seq<char>>) -> Seq<char>
    decreases ps.len(),
{
    if ps.len() == 0 {
        Seq::empty()
    } else {
        pdf_text(ps.drop_last()) + replace_all(ps.last(), UNDECODED_MARKER@, Seq::empty())
    }
}

impl PdfFileLoader {
    /// The document text of the extracted pages.
    pub fn assemble_text(pages: &Vec<String>) -> (r: String)
        ensures
            r@ == pdf_text(string_views(pages@)),
    {
        let marker = chars_of(UNDECODED_MARKER);
        proof {
            reveal_strlit("?Identity-H Unimplemented?");
        }
        let empty: Vec<char> = Vec::new();
        let mut out: Vec<char> = Vec::new();
        let mut i: usize = 0;
        while i < pages.len()
            invariant
                i <= pages@.len(),
                marker@ == UNDECODED_MARKER@,
                marker@.len() > 0,
                empty@ == Seq::<char>::empty(),
                out@ == pdf_text(string_views(pages@).take(i as int)),
            decreases pages.len() - i,
        {
            let page = replace_chars(&chars_of(pages[i].as_str()), &marker, &empty);
            let ghost o0 = out@;
            let mut k: usize = 0;
            while k < page.len()
                invariant
                    k <= page@.len(),
                    out@ == o0 + page@.take(k as int),
                decreases page.len() - k,
            {
                out.push(page[k]);
                assert(out@ =~= o0 + page@.take(k + 1));
                k = k + 1;
            }
            proof {
                let t = string_views(pages@).take(i + 1);
                assert(t.drop_last() =~= string_views(pages@).take(i as int));
                assert(t.last() == pages@[i as int]@);
                assert(page@.take(k as int) =~= page@);
            }
            i = i + 1;
        }
        assert(string_views(pages@).take(pages.len() as int) =~= string_views(pages@));
        string_of(&out)
    }

    /// The loaded document for the extracted pages of a PDF file.
    pub fn load_pages(
        pages: &Vec<String>,
        internal_id: String,
        tags: Option<Vec<String>>,
        description: Option<String>,
    ) -> (r: LoadedFile)
        ensures
            r.file_type == RagProcessableFileType::Pdf,
            r.content@ == pdf_text(string_views(pages@)),
            r.internal_id == internal_id,
            r.tags == tags,
            r.original_file_description == description,
            r.syntetic_file_description is None,
    {
        LoadedFile {
            file_type: RagProcessableFileType::Pdf,
            content: PdfFileLoader::assemble_text(pages),
            internal_id,
            tags,
            original_file_description: description,
            syntetic_file_description: None,
        }
    }
}

} // verus!
