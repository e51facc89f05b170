//! Export settings as the export dialog edits them, the checks made before
//! an export starts, and the report written when it ends.

use vstd::prelude::*;
use crate::text::{decimal, push_decimal};

verus! {

/// The file format pages are exported to.
#[derive(Copy, Clone, Debug, PartialEq, Eq, Structural)]
pub enum ExportFormat {
    Jpeg,
    Png,
    Tiff,
    Pdf,
}

/// How page images are encoded inside a PDF.
#[derive(Copy, Clone, Debug, PartialEq, Eq, Structural)]
pub enum PdfEncoding {
    Jpeg,
    Flate,
    Ccitt,
}

/// The export settings of a project.
#[derive(Copy, Clone, Debug, PartialEq, Eq, Structural)]
pub enum ExportSettings {
    Jpeg { quality: u8 },
    Png { compression: u8 },
    Tiff,
    Pdf { encoding: PdfEncoding, quality: u8 },
}

/// The format a project's settings export to (the toggle shown active).
pub fn format_of(s: ExportSettings) -> (f: ExportFormat)
    ensures
        f == (match s {
            ExportSettings::Jpeg { .. } => ExportFormat::Jpeg,
            ExportSettings::Png { .. } => ExportFormat::Png,
            ExportSettings::Tiff => ExportFormat::Tiff,
            ExportSettings::Pdf { .. } => ExportFormat::Pdf,
        }),
{
    match s {
        ExportSettings::Jpeg { .. } => ExportFormat::Jpeg,
        ExportSettings::Png { .. } => ExportFormat::Png,
        ExportSettings::Tiff => ExportFormat::Tiff,
        ExportSettings::Pdf { .. } => ExportFormat::Pdf,
    }
}

/// Which rows of the export dialog are shown.
#[derive(Copy, Clone, Debug, PartialEq, Eq, Structural)]
pub struct ExportRows {
    pub pdf_encoding: bool,
    pub prefix: bool,
    pub pdf_name: bool,
    pub pdf_metadata: bool,
    pub quality: bool,
    pub png_compression: bool,
}

/// The rows shown for `format` (with `encoding` chosen for PDF): PDF shows
/// its encoding, file name and metadata rows, the others the name prefix;
/// the quality slider serves JPEG and JPEG-encoded PDF; the compression
/// slider serves PNG.
pub open spec fn rows_of(format: ExportFormat, encoding: PdfEncoding) -> ExportRows {
    let pdf = format == ExportFormat::Pdf;
    ExportRows {
        pdf_encoding: pdf,
        prefix: !pdf,
        pdf_name: pdf,
        pdf_metadata: pdf,
        quality: format == ExportFormat::Jpeg || (pdf && encoding == PdfEncoding::Jpeg),
        png_compression: format == ExportFormat::Png,
    }
}

pub fn export_rows(format: ExportFormat, encoding: PdfEncoding) -> (r: ExportRows)
    ensures
        r == rows_of(format, encoding),
{
    let pdf = match format {
        ExportFormat::Pdf => true,
        _ => false,
    };
    let jpeg = match format {
        ExportFormat::Jpeg => true,
        _ => false,
    };
    let pdf_jpeg = match encoding {
        PdfEncoding::Jpeg => true,
        _ => false,
    };
    let png = match format {
        ExportFormat::Png => true,
        _ => false,
    };
    ExportRows {
        pdf_encoding: pdf,
        prefix: !pdf,
        pdf_name: pdf,
        pdf_metadata: pdf,
        quality: jpeg || (pdf && pdf_jpeg),
        png_compression: png,
    }
}

/// The example file name suffix shown after the prefix; PDF exports one
/// file named separately, so it has none.
pub fn file_suffix(format: ExportFormat) -> (s: Option<&'static str>)
    ensures
        match format {
            ExportFormat::Jpeg => s is Some && s->0@ == "_01.jpg"@,
            ExportFormat::Png => s is Some && s->0@ == "_01.png"@,
            ExportFormat::Tiff => s is Some && s->0@ == "_01.tiff"@,
            ExportFormat::Pdf => s is None,
        },
{
    match format {
        ExportFormat::Jpeg => Some("_01.jpg"),
        ExportFormat::Png => Some("_01.png"),
        ExportFormat::Tiff => Some("_01.tiff"),
        ExportFormat::Pdf => None,
    }
}

/// The settings chosen by switching to `format`, taking the slider values
/// and, for PDF, JPEG encoding when that encoding is picked and Flate
/// otherwise.
pub open spec fn settings_for_format(format: ExportFormat, pdf_jpeg: bool, quality: u8, png_compression: u8) -> ExportSettings {
    match format {
        ExportFormat::Jpeg => ExportSettings::Jpeg { quality },
        ExportFormat::Png => ExportSettings::Png { compression: png_compression },
        ExportFormat::Tiff => ExportSettings::Tiff,
        ExportFormat::Pdf => ExportSettings::Pdf {
            encoding: if pdf_jpeg {
                PdfEncoding::Jpeg
            } else {
                PdfEncoding::Flate
            },
            quality,
        },
    }
}

pub fn format_selected(format: ExportFormat, pdf_jpeg: bool, quality: u8, png_compression: u8) -> (s: ExportSettings)
    ensures
        s == settings_for_format(format, pdf_jpeg, quality, png_compression),
{
    match format {
        ExportFormat::Jpeg => ExportSettings::Jpeg { quality },
        ExportFormat::Png => ExportSettings::Png { compression: png_compression },
        ExportFormat::Tiff => ExportSettings::Tiff,
        ExportFormat::Pdf => ExportSettings::Pdf {
            encoding: if pdf_jpeg {
                PdfEncoding::Jpeg
            } else {
                PdfEncoding::Flate
            },
            quality,
        },
    }
}

/// The settings after picking a PDF encoding.
pub fn pdf_encoding_selected(encoding: PdfEncoding, quality: u8) -> (s: ExportSettings)
    ensures
        s == (ExportSettings::Pdf { encoding, quality }),
{
    ExportSettings::Pdf { encoding, quality }
}

/// The settings after the quality slider moved to `quality`, if they change:
/// the slider governs JPEG and JPEG-encoded PDF only.
pub fn quality_changed(format: ExportFormat, encoding: PdfEncoding, quality: u8) -> (s: Option<ExportSettings>)
    ensures
        s == (if format == ExportFormat::Jpeg {
            Some(ExportSettings::Jpeg { quality })
        } else if format == ExportFormat::Pdf && encoding == PdfEncoding::Jpeg {
            Some(ExportSettings::Pdf { encoding: PdfEncoding::Jpeg, quality })
        } else {
            None
        }),
{
    match format {
        ExportFormat::Jpeg => Some(ExportSettings::Jpeg { quality }),
        ExportFormat::Pdf => match encoding {
            PdfEncoding::Jpeg => Some(ExportSettings::Pdf { encoding: PdfEncoding::Jpeg, quality }),
            _ => None,
        },
        _ => None,
    }
}

/// The settings after the PNG compression slider moved, if they change.
pub fn png_compression_changed(format: ExportFormat, compression: u8) -> (s: Option<ExportSettings>)
    ensures
        s == (if format == ExportFormat::Png {
            Some(ExportSettings::Png { compression })
        } else {
            None
        }),
{
    match format {
        ExportFormat::Png => Some(ExportSettings::Png { compression }),
        _ => None,
    }
}

/// Why an export does not start.
#[derive(Copy, Clone, Debug, PartialEq, Eq, Structural)]
pub enum ExportRefusal {
    NoPages,
    NoOutputDir,
}

pub open spec fn refusal_message(r: ExportRefusal) -> Seq<char> {
    match r {
        ExportRefusal::NoPages => "No pages to export.\n"@,
        ExportRefusal::NoOutputDir => "Choose an output directory first.\n"@,
    }
}

impl ExportRefusal {
    /// The line written to the report.
    pub fn message(self) -> (s: &'static str)
        ensures
            s@ == refusal_message(self),
    {
        match self {
            ExportRefusal::NoPages => "No pages to export.\n",
            ExportRefusal::NoOutputDir => "Choose an output directory first.\n",
        }
    }
}

/// An export starts when there are pages and an output directory; pages are
/// checked first.
pub fn export_precheck(page_count: usize, output_dir: &str) -> (r: Result<(), ExportRefusal>)
    ensures
        page_count == 0 ==> r == Err::<(), ExportRefusal>(ExportRefusal::NoPages),
        page_count > 0 && output_dir@.len() == 0 ==> r == Err::<(), ExportRefusal>(ExportRefusal::NoOutputDir),
        r is Ok <==> page_count > 0 && output_dir@.len() > 0,
{
    if page_count == 0 {
        return Err(ExportRefusal::NoPages);
    }
    if output_dir.is_empty() {
        return Err(ExportRefusal::NoOutputDir);
    }
    Ok(())
}

/// The name prefix recorded when an export starts: the PDF file name field
/// for PDF, the prefix field otherwise.
pub fn chosen_prefix(format: ExportFormat, prefix: String, pdf_name: String) -> (s: String)
    ensures
        s@ == (if format == ExportFormat::Pdf {
            pdf_name@
        } else {
            prefix@
        }),
{
    match format {
        ExportFormat::Pdf => pdf_name,
        _ => prefix,
    }
}

/// The file a PDF export writes in the output directory.
pub fn pdf_file_name(prefix: &str) -> (s: String)
    ensures
        s@ == prefix@ + ".pdf"@,
{
    let mut s = String::new();
    s.append(prefix);
    s.append(".pdf");
    s
}

/// The report line of one exported item.
pub open spec fn report_line(ok: bool, msg: Seq<char>) -> Seq<char> {
    (if ok {
        "\u{2713} "@
    } else {
        "\u{2717} "@
    }) + msg + "\n"@
}

/// The report lines of the first `n` items.
pub open spec fn report_lines(items: Seq<(bool, String)>, n: nat) -> Seq<char>
    decreases n,
{
    if n == 0 || n > items.len() {
        Seq::empty()
    } else {
        report_lines(items, (n - 1) as nat) + report_line(items[n - 1].0, items[n - 1].1@)
    }
}

/// How many of the first `n` items succeeded.
pub open spec fn succeeded(items: Seq<(bool, String)>, n: nat) -> nat
    decreases n,
{
    if n == 0 || n > items.len() {
        0
    } else {
        succeeded(items, (n - 1) as nat) + if items[n - 1].0 {
            1nat
        } else {
            0nat
        }
    }
}

/// The report written when an export ends: one line per item, marked
/// with a tick or a cross, then the count of successes.
pub open spec fn export_report_of(items: Seq<(bool, String)>) -> Seq<char> {
    report_lines(items, items.len()) + "\nDone: "@ + decimal(succeeded(items, items.len())) + "/"@
        + decimal(items.len()) + " succeeded.\n"@
}

proof fn lemma_succeeded_bounded(items: Seq<(bool, String)>, n: nat)
    requires
        n <= items.len(),
    ensures
        succeeded(items, n) <= n,
    decreases n,
{
    if n > 0 {
        lemma_succeeded_bounded(items, (n - 1) as nat);
    }
}

pub fn export_report(items: &Vec<(bool, String)>) -> (s: String)
    ensures
        s@ == export_report_of(items@),
{
    let mut s = String::new();
    let mut ok: usize = 0;
    let mut i: usize = 0;
    while i < items.len()
        invariant
            i <= items@.len(),
            ok == succeeded(items@, i as nat),
            s@ == report_lines(items@, i as nat),
        decreases items@.len() - i,
    {
        proof {
            lemma_succeeded_bounded(items@, i as nat);
        }
        let (good, msg) = &items[i];
        if *good {
            s.append("\u{2713} ");
            ok = ok + 1;
        } else {
            s.append("\u{2717} ");
        }
        s.append(msg.as_str());
        s.append("\n");
        i = i + 1;
        proof {
            assert(s@ =~= report_lines(items@, i as nat));
        }
    }
    s.append("\nDone: ");
    push_decimal(&mut s, ok as u64);
    s.append("/");
    push_decimal(&mut s, items.len() as u64);
    s.append(" succeeded.\n");
    s
}

} // verus!
