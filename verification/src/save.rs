use vstd::prelude::*;
use vstd::string::StrSliceExecFns;
use vstd::string::StringExecFns;
use crate::errors::LnasError;
use crate::format::LNAS;

verus! {

/// A character that the document's plain scalar syntax carries unquoted:
/// letters, digits, underscore, hyphen and dot.
pub open spec fn plain_char(c: char) -> bool {
    ||| (97 <= c as int <= 122)
    ||| (65 <= c as int <= 90)
    ||| (48 <= c as int <= 57)
    ||| c as int == 95
    ||| c as int == 45
    ||| c as int == 46
}

/// A surface name the document can carry: nonempty and made of plain
/// characters only.
pub open spec fn plain_name(s: Seq<char>) -> bool {
    s.len() > 0 && forall|i: int| 0 <= i < s.len() ==> plain_char(s[i])
}

/// Whether a name is safe for the document's plain scalar syntax.
pub fn check_plain_name(s: &String) -> (r: bool)
    ensures
        r == plain_name(s@),
{
    let n = s.as_str().unicode_len();
    if n == 0 {
        return false;
    }
    let mut i: usize = 0;
    while i < n
        invariant
            i <= n == s@.len(),
            forall|k: int| 0 <= k < i ==> plain_char(s@[k]),
        decreases n - i,
    {
        let c = s.as_str().get_char(i);
        let v = c as u32;
        let ok = (97 <= v && v <= 122) || (65 <= v && v <= 90) || (48 <= v && v <= 57) || v == 95
            || v == 45 || v == 46;
        if !ok {
            return false;
        }
        i = i + 1;
    }
    true
}

/// The text of the surface entries, one `  name: blob` line each, in the
/// order the document holds them.
pub open spec fn surfaces_text(ss: Seq<(String, String)>) -> Seq<char>
    decreases ss.len(),
{
    if ss.len() == 0 {
        Seq::empty()
    } else {
        surfaces_text(ss.drop_last()) + "  "@ + ss.last().0@ + ": "@ + ss.last().1@ + "\n"@
    }
}

/// The fixed part of the document: the version line and the geometry
/// block, up to the surface entries.
pub open spec fn header_text(doc: LNAS) -> Seq<char> {
    "version: "@ + doc.version@ + "\ngeometry:\n  vertices: "@ + doc.geometry.vertices@
        + "\n  triangles: "@ + doc.geometry.triangles@ + "\nsurfaces:\n"@
}

/// The full document text: the version line, the geometry block, then the
/// surface entries.
pub open spec fn render_spec(doc: LNAS) -> Seq<char> {
    header_text(doc) + surfaces_text(doc.surfaces@)
}

/// Renders the document as text, refusing a surface name that the plain
/// scalar syntax cannot carry.
pub fn render_lnas(doc: &LNAS) -> (r: Result<String, LnasError>)
    ensures
        (forall|j: int|
            0 <= j < doc.surfaces@.len() ==> plain_name((#[trigger] doc.surfaces@[j]).0@)) <==> r
            is Ok,
        r is Ok ==> r->Ok_0@ == render_spec(*doc),
        r is Err ==> r == Err::<String, LnasError>(LnasError::UnsafeSurfaceName),
{
    let n = doc.surfaces.len();
    let mut j: usize = 0;
    while j < n
        invariant
            j <= n == doc.surfaces@.len(),
            forall|k: int| 0 <= k < j ==> plain_name((#[trigger] doc.surfaces@[k]).0@),
        decreases n - j,
    {
        if !check_plain_name(&doc.surfaces[j].0) {
            return Err(LnasError::UnsafeSurfaceName);
        }
        j = j + 1;
    }
    let mut out = String::new();
    out.append("version: ");
    out.append(doc.version.as_str());
    out.append("\ngeometry:\n  vertices: ");
    out.append(doc.geometry.vertices.as_str());
    out.append("\n  triangles: ");
    out.append(doc.geometry.triangles.as_str());
    out.append("\nsurfaces:\n");
    proof {
        assert(out@ =~= header_text(*doc) + surfaces_text(doc.surfaces@.take(0)));
    }
    let mut k: usize = 0;
    while k < n
        invariant
            k <= n == doc.surfaces@.len(),
            out@ == header_text(*doc) + surfaces_text(doc.surfaces@.take(k as int)),
        decreases n - k,
    {
        out.append("  ");
        out.append(doc.surfaces[k].0.as_str());
        out.append(": ");
        out.append(doc.surfaces[k].1.as_str());
        out.append("\n");
        proof {
            assert(doc.surfaces@.take(k + 1).drop_last() =~= doc.surfaces@.take(k as int));
            assert(doc.surfaces@.take(k + 1).last() == doc.surfaces@[k as int]);
            assert(out@ =~= header_text(*doc) + surfaces_text(doc.surfaces@.take(k + 1)));
        }
        k = k + 1;
    }
    proof {
        assert(doc.surfaces@.take(n as int) =~= doc.surfaces@);
    }
    Ok(out)
}

} // verus!
