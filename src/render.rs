//! Rendering a report as text, CSV or JSON.

use vstd::prelude::*;
use crate::counts::{
    is_listing, keys_unique, lemma_listing_ignores_order, lemma_sum_ignores_order, listing, sum_counts,
    tally_of, CountMap, Tally,
};
use crate::report::{Census, Report};
use crate::text::{decimal, decimal_string, escape_json, escaped, friendly, friendly_bytes};

verus! {

/// The encoding of the rendered report.
#[derive(Clone, Copy, Debug, PartialEq, Eq, Structural)]
pub enum OutputFormat {
    Text,
    Csv,
    Json,
}

impl Default for OutputFormat {
    fn default() -> (r: Self)
        ensures
            r == OutputFormat::Text,
    {
        OutputFormat::Text
    }
}

/// One line per entry: its key, `sep`, its count.
pub open spec fn rows(l: Seq<Tally>, sep: Seq<char>) -> Seq<char>
    decreases l.len(),
{
    if l.len() == 0 {
        Seq::empty()
    } else {
        rows(l.drop_last(), sep) + l.last().0 + sep + decimal(l.last().1) + "\n"@
    }
}

/// The pieces joined by a comma and a line break.
pub open spec fn joined(items: Seq<Seq<char>>) -> Seq<char>
    decreases items.len(),
{
    if items.len() == 0 {
        Seq::empty()
    } else if items.len() == 1 {
        items[0]
    } else {
        joined(items.drop_last()) + ",\n"@ + items.last()
    }
}

/// The summary line of the text form.
pub open spec fn summary_line(c: Census, files: nat) -> Seq<char> {
    decimal(files) + " files, "@ + decimal(c.folders.len()) + " folders, "@ + friendly(c.size)
        + if c.errors.len() > 0 {
        ", "@ + decimal(c.errors.len()) + " errors"@
    } else {
        Seq::empty()
    } + "\n"@
}

/// The text form: the summary line, then `key: count` per entry.
pub open spec fn text_form(c: Census, data: Seq<Tally>) -> Seq<char> {
    summary_line(c, sum_counts(data)) + rows(listing(data), ": "@)
}

/// The name of the grouping, singular for the CSV header.
pub open spec fn dimension(use_mime: bool) -> Seq<char> {
    if use_mime {
        "mimetype"@
    } else {
        "extension"@
    }
}

/// The CSV form: a header, then `key,count` per entry.
pub open spec fn csv_form(data: Seq<Tally>, use_mime: bool) -> Seq<char> {
    dimension(use_mime) + ",count\n"@ + rows(listing(data), ","@)
}

/// One entry as a member of a JSON object.
pub open spec fn json_entry(t: Tally) -> Seq<char> {
    "    \""@ + t.0 + "\": "@ + decimal(t.1)
}

/// One error as a JSON object, its message escaped.
pub open spec fn json_error(e: (Seq<char>, Seq<char>)) -> Seq<char> {
    "    {\n      \"path\": \""@ + e.0 + "\",\n      \"message\": \""@ + escaped(e.1)
        + "\"\n    }"@
}

/// The JSON form: totals, the sorted counts under the grouping's plural
/// name, and the errors.
pub open spec fn json_form(c: Census, data: Seq<Tally>, use_mime: bool) -> Seq<char> {
    "{\n  \"files\": "@ + decimal(sum_counts(data)) + ",\n  \"folders\": "@ + decimal(
        c.folders.len(),
    ) + ",\n  \"size\": "@ + decimal(c.size) + ",\n  \""@ + dimension(use_mime) + "s\": {\n"@
        + joined(listing(data).map_values(|t: Tally| json_entry(t))) + "\n  },\n  \"errors\": [\n"@
        + joined(c.errors.map_values(|e: (Seq<char>, Seq<char>)| json_error(e))) + "\n  ]\n}\n"@
}

/// The whole rendering of a report in the given form and grouping.
pub open spec fn rendered(c: Census, format: OutputFormat, use_mime: bool) -> Seq<char> {
    let data = if use_mime {
        c.mimetypes
    } else {
        c.extensions
    };
    match format {
        OutputFormat::Text => text_form(c, data),
        OutputFormat::Csv => csv_form(data, use_mime),
        OutputFormat::Json => json_form(c, data, use_mime),
    }
}

/// With no counted entries and no errors, the JSON form reports zero files
/// and closes the object of counts and the array of errors right after
/// opening them, with no separator left dangling inside either.
pub proof fn lemma_json_empty(c: Census, use_mime: bool)
    requires
        (if use_mime {
            c.mimetypes
        } else {
            c.extensions
        }).len() == 0,
        c.errors.len() == 0,
    ensures
        rendered(c, OutputFormat::Json, use_mime) == "{\n  \"files\": "@ + "0"@ + ",\n  \"folders\": "@
            + decimal(c.folders.len()) + ",\n  \"size\": "@ + decimal(c.size) + ",\n  \""@
            + dimension(use_mime) + "s\": {\n"@ + "\n  },\n  \"errors\": [\n"@ + "\n  ]\n}\n"@,
{
    let data = if use_mime {
        c.mimetypes
    } else {
        c.extensions
    };
    assert(is_listing(data, Seq::<Tally>::empty()));
    let l = listing(data);
    assert(l.len() == 0) by {
        if l.len() > 0 {
            assert(l.contains(l[0]));
        }
    }
    assert(joined(listing(data).map_values(|t: Tally| json_entry(t))) =~= Seq::<char>::empty());
    assert(joined(c.errors.map_values(|e: (Seq<char>, Seq<char>)| json_error(e))) =~= Seq::<char>::empty());
    reveal_strlit("0");
    assert(decimal(0) =~= "0"@);
    assert(sum_counts(data) == 0);
    assert(rendered(c, OutputFormat::Json, use_mime) =~= "{\n  \"files\": "@ + "0"@ + ",\n  \"folders\": "@
        + decimal(c.folders.len()) + ",\n  \"size\": "@ + decimal(c.size) + ",\n  \""@
        + dimension(use_mime) + "s\": {\n"@ + "\n  },\n  \"errors\": [\n"@ + "\n  ]\n}\n"@);
}

/// Rendering is fixed by what a report holds: two reports with the same
/// number of folders, size and errors, and the same counted entries in
/// whatever order their keys were first met, render to the same text in
/// every form and grouping. In particular the same report always renders
/// alike.
pub proof fn lemma_render_deterministic(c1: Census, c2: Census, format: OutputFormat, use_mime: bool)
    requires
        c1.folders.len() == c2.folders.len(),
        c1.size == c2.size,
        c1.errors == c2.errors,
        keys_unique(c1.extensions),
        keys_unique(c2.extensions),
        keys_unique(c1.mimetypes),
        keys_unique(c2.mimetypes),
        forall|x: Tally| c1.extensions.contains(x) <==> c2.extensions.contains(x),
        forall|x: Tally| c1.mimetypes.contains(x) <==> c2.mimetypes.contains(x),
    ensures
        rendered(c1, format, use_mime) == rendered(c2, format, use_mime),
{
    lemma_listing_ignores_order(c1.extensions, c2.extensions);
    lemma_listing_ignores_order(c1.mimetypes, c2.mimetypes);
    lemma_sum_ignores_order(c1.extensions, c2.extensions);
    lemma_sum_ignores_order(c1.mimetypes, c2.mimetypes);
}

fn append_rows(out: &mut String, l: &Vec<(String, u64)>, sep: &str)
    ensures
        final(out)@ == old(out)@ + rows(l@.map_values(|e: (String, u64)| tally_of(e)), sep@),
{
    let ghost start = out@;
    let ghost lv = l@.map_values(|e: (String, u64)| tally_of(e));
    let mut i: usize = 0;
    while i < l.len()
        invariant
            i <= l@.len(),
            lv == l@.map_values(|e: (String, u64)| tally_of(e)),
            out@ == start + rows(lv.subrange(0, i as int), sep@),
        decreases l@.len() - i,
    {
        assert(lv.subrange(0, i + 1).drop_last() =~= lv.subrange(0, i as int));
        out.append(l[i].0.as_str());
        out.append(sep);
        out.append(decimal_string(l[i].1).as_str());
        proof { reveal_strlit("\n"); }
        out.append("\n");
        assert(out@ =~= start + rows(lv.subrange(0, i + 1), sep@));
        i = i + 1;
    }
    assert(lv.subrange(0, l@.len() as int) =~= lv);
}

impl Report {
    /// Renders the report, grouped by content type where `use_mime` holds
    /// and by extension otherwise.
    pub fn display(&self, format: &OutputFormat, use_mime: bool) -> (r: String)
        ensures
            r@ == rendered(self@, *format, use_mime),
    {
        let data = if use_mime {
            &self.mimetypes
        } else {
            &self.extensions
        };
        match format {
            OutputFormat::Text => self.display_text(data),
            OutputFormat::Csv => self.display_csv(data, use_mime),
            OutputFormat::Json => self.display_json(data, use_mime),
        }
    }

    /// The text form: a summary line with the number of files, of folders,
    /// the friendly size and, if there are any, the number of errors; then
    /// one `key: count` line per entry of `data`.
    pub fn display_text(&self, data: &CountMap) -> (r: String)
        ensures
            r@ == text_form(self@, data@),
    {
        let mut out = decimal_string(data.total());
        out.append(" files, ");
        out.append(decimal_string(self.folders.len() as u64).as_str());
        out.append(" folders, ");
        out.append(friendly_bytes(self.size).as_str());
        if self.errors.len() > 0 {
            out.append(", ");
            out.append(decimal_string(self.errors.len() as u64).as_str());
            out.append(" errors");
        }
        out.append("\n");
        assert(out@ =~= summary_line(self@, sum_counts(data@)));
        let sorted = data.sorted();
        append_rows(&mut out, &sorted, ": ");
        out
    }

    /// The CSV form: a header naming the grouping, then one `key,count` row
    /// per entry of `data`.
    pub fn display_csv(&self, data: &CountMap, use_mime: bool) -> (r: String)
        ensures
            r@ == csv_form(data@, use_mime),
    {
        let mut out = if use_mime {
            String::from_str("mimetype")
        } else {
            String::from_str("extension")
        };
        out.append(",count\n");
        let sorted = data.sorted();
        append_rows(&mut out, &sorted, ",");
        out
    }

    /// The JSON form: the number of files, of folders and the size; the
    /// counts of `data` in listing order; and the errors.
    pub fn display_json(&self, data: &CountMap, use_mime: bool) -> (r: String)
        ensures
            r@ == json_form(self@, data@, use_mime),
    {
        let mut out = String::from_str("{\n  \"files\": ");
        out.append(decimal_string(data.total()).as_str());
        out.append(",\n  \"folders\": ");
        out.append(decimal_string(self.folders.len() as u64).as_str());
        out.append(",\n  \"size\": ");
        out.append(decimal_string(self.size).as_str());
        out.append(",\n  \"");
        if use_mime {
            out.append("mimetypes");
        } else {
            out.append("extensions");
        }
        out.append("\": {\n");
        proof {
            reveal_strlit("mimetypes");
            reveal_strlit("extensions");
            reveal_strlit("mimetype");
            reveal_strlit("extension");
            reveal_strlit("\": {\n");
            reveal_strlit("s\": {\n");
        }
        assert(out@ =~= "{\n  \"files\": "@ + decimal(sum_counts(data@)) + ",\n  \"folders\": "@ + decimal(
            self@.folders.len(),
        ) + ",\n  \"size\": "@ + decimal(self@.size) + ",\n  \""@ + dimension(use_mime) + "s\": {\n"@);
        let ghost head = out@;
        let sorted = data.sorted();
        let ghost entries = sorted@.map_values(|e: (String, u64)| tally_of(e)).map_values(
            |t: Tally| json_entry(t),
        );
        let mut i: usize = 0;
        while i < sorted.len()
            invariant
                i <= sorted@.len(),
                entries == sorted@.map_values(|e: (String, u64)| tally_of(e)).map_values(
                    |t: Tally| json_entry(t),
                ),
                out@ == head + joined(entries.subrange(0, i as int)),
            decreases sorted@.len() - i,
        {
            assert(entries.subrange(0, i + 1).drop_last() =~= entries.subrange(0, i as int));
            if i > 0 {
                out.append(",\n");
            }
            out.append("    \"");
            out.append(sorted[i].0.as_str());
            out.append("\": ");
            out.append(decimal_string(sorted[i].1).as_str());
            assert(out@ =~= head + joined(entries.subrange(0, i + 1)));
            i = i + 1;
        }
        assert(entries.subrange(0, sorted@.len() as int) =~= entries);
        out.append("\n  },\n  \"errors\": [\n");
        let ghost mid = out@;
        let ghost errs = self@.errors.map_values(|e: (Seq<char>, Seq<char>)| json_error(e));
        let mut j: usize = 0;
        while j < self.errors.len()
            invariant
                j <= self.errors@.len(),
                errs == self@.errors.map_values(|e: (Seq<char>, Seq<char>)| json_error(e)),
                out@ == mid + joined(errs.subrange(0, j as int)),
            decreases self.errors@.len() - j,
        {
            assert(errs.subrange(0, j + 1).drop_last() =~= errs.subrange(0, j as int));
            if j > 0 {
                out.append(",\n");
            }
            out.append("    {\n      \"path\": \"");
            out.append(self.errors[j].path.as_str());
            out.append("\",\n      \"message\": \"");
            out.append(escape_json(self.errors[j].message.as_str()).as_str());
            out.append("\"\n    }");
            assert(out@ =~= mid + joined(errs.subrange(0, j + 1)));
            j = j + 1;
        }
        assert(errs.subrange(0, self.errors@.len() as int) =~= errs);
        out.append("\n  ]\n}\n");
        out
    }
}

} // verus!
