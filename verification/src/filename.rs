//! The filename value grammar: a nonempty run of path characters, kept
//! verbatim.

use vstd::prelude::*;

use crate::ast::Filename;
use crate::ast::SourceInfo;
use crate::error::ParseError;
use crate::error::ParseErrorKind;
use crate::error::ParseResult;
use crate::primitives::CharClass;
use crate::primitives::lemma_run_end_props;
use crate::primitives::read_class;
use crate::primitives::run_end;
use crate::primitives::string_of;
use crate::reader::Reader;
use crate::reader::pos_at;

verus! {

/// Where the filename token starting at `i` ends.
pub open spec fn filename_end(s: Seq<char>, i: int) -> int {
    run_end(CharClass::FilenameChar, s, i)
}

/// Parse a filename.  An empty capture is fatal: once the keyword demanded a
/// filename, no other alternative is legal.
pub fn parse(reader: &mut Reader) -> (r: ParseResult<Filename>)
    requires
        old(reader).wf(),
    ensures
        final(reader).wf(),
        final(reader).text() == old(reader).text(),
        0 <= old(reader).cursor() <= final(reader).cursor() <= final(reader).text().len(),
        filename_end(old(reader).text(), old(reader).cursor()) > old(reader).cursor() ==> (r
            matches Ok(f) && f.value@ == old(reader).text().subrange(
            old(reader).cursor(),
            filename_end(old(reader).text(), old(reader).cursor()),
        ) && final(reader).cursor() == filename_end(old(reader).text(), old(reader).cursor())
            && f.source_info == (SourceInfo {
            start: pos_at(old(reader).text(), old(reader).cursor()),
            end: pos_at(old(reader).text(), final(reader).cursor()),
        })),
        filename_end(old(reader).text(), old(reader).cursor()) == old(reader).cursor() ==> (r
            matches Err(e) && !e.recoverable && e.pos == pos_at(
            old(reader).text(),
            old(reader).cursor(),
        ) && e.kind == ParseErrorKind::Filename && final(reader).cursor() == old(reader).cursor()),
{
    let ghost s = reader.text();
    let ghost i0 = reader.cursor();
    proof {
        crate::reader::lemma_wf(reader);
        lemma_run_end_props(CharClass::FilenameChar, s, i0);
    }
    let start = reader.snapshot();
    let chars = read_class(reader, CharClass::FilenameChar);
    if chars.len() == 0 {
        return Err(
            ParseError { pos: start.pos, recoverable: false, kind: ParseErrorKind::Filename },
        );
    }
    let value = string_of(&chars);
    let end = reader.snapshot();
    Ok(Filename { value, source_info: SourceInfo { start: start.pos, end: end.pos } })
}

} // verus!
