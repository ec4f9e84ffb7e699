//! The colours that files are shown in, by the kind of file.

use vstd::prelude::*;
use vstd::string::StringExecFns;
use crate::text::{after_last, text_after_last};

verus! {

/// A colour in red, green, blue and opacity.
#[derive(Debug, Clone, Copy, PartialEq, Eq, Structural)]
pub struct Color {
    pub r: u8,
    pub g: u8,
    pub b: u8,
    pub a: u8,
}

impl Color {
    /// A colour without transparency.
    pub open spec fn spec_rgb(r: u8, g: u8, b: u8) -> Color {
        Color { r, g, b, a: 255 }
    }

    /// A colour without transparency.
    pub fn rgb(r: u8, g: u8, b: u8) -> (color: Color)
        ensures
            color == Color::spec_rgb(r, g, b),
    {
        Color { r, g, b, a: 255 }
    }
}

/// An extension and the colour of the files that have it.
#[derive(Debug)]
pub struct ExtensionColor {
    pub extension: String,
    pub color: Color,
}

/// The colour of files of an unknown kind.
pub open spec fn default_file_color() -> Color {
    Color::spec_rgb(180, 180, 180)
}

/// The colour that the first entry of the table from `from` on gives the
/// extension; the default colour where none does.
pub open spec fn color_in(table: Seq<ExtensionColor>, extension: Seq<char>, from: nat) -> Color
    decreases table.len() - from,
{
    if from >= table.len() {
        default_file_color()
    } else if table[from as int].extension@ == extension {
        table[from as int].color
    } else {
        color_in(table, extension, from + 1)
    }
}

/// The extensions of the table.
pub open spec fn table_extensions(table: Seq<ExtensionColor>) -> Seq<Seq<char>> {
    Seq::new(table.len(), |i: int| table[i].extension@)
}

/// The colours of the table.
pub open spec fn table_colors(table: Seq<ExtensionColor>) -> Seq<Color> {
    Seq::new(table.len(), |i: int| table[i].color)
}

/// The extensions that have a colour of their own.
pub open spec fn known_extensions() -> Seq<Seq<char>> {
    seq![
        "rs"@,
        "js"@,
        "py"@,
        "java"@,
        "c"@,
        "cpp"@,
        "h"@,
        "cs"@,
        "html"@,
        "css"@,
        "scss"@,
        "less"@,
        "svg"@,
        "json"@,
        "xml"@,
        "yaml"@,
        "yml"@,
        "toml"@,
        "csv"@,
        "md"@,
        "txt"@,
        "pdf"@,
        "doc"@,
        "docx"@,
        "png"@,
        "jpg"@,
        "jpeg"@,
        "gif"@,
        "webp"@,
        "gitignore"@,
        "env"@,
        "lock"@,
    ]
}

/// The colours of the known extensions, in the same order.
pub open spec fn known_colors() -> Seq<Color> {
    seq![
        Color::spec_rgb(250, 100, 100),
        Color::spec_rgb(240, 220, 100),
        Color::spec_rgb(100, 200, 150),
        Color::spec_rgb(180, 120, 80),
        Color::spec_rgb(100, 160, 200),
        Color::spec_rgb(120, 140, 220),
        Color::spec_rgb(140, 180, 220),
        Color::spec_rgb(100, 180, 180),
        Color::spec_rgb(255, 159, 64),
        Color::spec_rgb(153, 102, 255),
        Color::spec_rgb(173, 122, 255),
        Color::spec_rgb(133, 102, 235),
        Color::spec_rgb(255, 120, 180),
        Color::spec_rgb(250, 150, 100),
        Color::spec_rgb(200, 150, 200),
        Color::spec_rgb(180, 200, 120),
        Color::spec_rgb(180, 200, 120),
        Color::spec_rgb(200, 180, 140),
        Color::spec_rgb(160, 220, 160),
        Color::spec_rgb(150, 150, 250),
        Color::spec_rgb(200, 200, 200),
        Color::spec_rgb(240, 100, 100),
        Color::spec_rgb(100, 150, 250),
        Color::spec_rgb(100, 150, 250),
        Color::spec_rgb(100, 220, 200),
        Color::spec_rgb(120, 200, 220),
        Color::spec_rgb(120, 200, 220),
        Color::spec_rgb(200, 120, 220),
        Color::spec_rgb(150, 220, 200),
        Color::spec_rgb(150, 150, 150),
        Color::spec_rgb(120, 180, 120),
        Color::spec_rgb(180, 180, 180),
    ]
}

/// The colours of the kinds of files.
#[derive(Debug)]
pub struct FileColors {
    pub table: Vec<ExtensionColor>,
}

impl FileColors {
    /// The colours of the known kinds of files.
    pub fn new() -> (colors: FileColors)
        ensures
            table_extensions(colors.table@) == known_extensions(),
            table_colors(colors.table@) == known_colors(),
    {
        let mut colors = FileColors { table: Vec::new() };
        // Code files
        colors.add("rs", Color::rgb(250, 100, 100));
        colors.add("js", Color::rgb(240, 220, 100));
        colors.add("py", Color::rgb(100, 200, 150));
        colors.add("java", Color::rgb(180, 120, 80));
        colors.add("c", Color::rgb(100, 160, 200));
        colors.add("cpp", Color::rgb(120, 140, 220));
        colors.add("h", Color::rgb(140, 180, 220));
        colors.add("cs", Color::rgb(100, 180, 180));
        // Web files
        colors.add("html", Color::rgb(255, 159, 64));
        colors.add("css", Color::rgb(153, 102, 255));
        colors.add("scss", Color::rgb(173, 122, 255));
        colors.add("less", Color::rgb(133, 102, 235));
        colors.add("svg", Color::rgb(255, 120, 180));
        // Data files
        colors.add("json", Color::rgb(250, 150, 100));
        colors.add("xml", Color::rgb(200, 150, 200));
        colors.add("yaml", Color::rgb(180, 200, 120));
        colors.add("yml", Color::rgb(180, 200, 120));
        colors.add("toml", Color::rgb(200, 180, 140));
        colors.add("csv", Color::rgb(160, 220, 160));
        // Document files
        colors.add("md", Color::rgb(150, 150, 250));
        colors.add("txt", Color::rgb(200, 200, 200));
        colors.add("pdf", Color::rgb(240, 100, 100));
        colors.add("doc", Color::rgb(100, 150, 250));
        colors.add("docx", Color::rgb(100, 150, 250));
        // Image files
        colors.add("png", Color::rgb(100, 220, 200));
        colors.add("jpg", Color::rgb(120, 200, 220));
        colors.add("jpeg", Color::rgb(120, 200, 220));
        colors.add("gif", Color::rgb(200, 120, 220));
        colors.add("webp", Color::rgb(150, 220, 200));
        // Config files
        colors.add("gitignore", Color::rgb(150, 150, 150));
        colors.add("env", Color::rgb(120, 180, 120));
        colors.add("lock", Color::rgb(180, 180, 180));
        assert(table_extensions(colors.table@) =~= known_extensions());
        assert(table_colors(colors.table@) =~= known_colors());
        colors
    }

    /// Adds the colour of an extension behind those that are there.
    pub fn add(&mut self, extension: &str, color: Color)
        ensures
            table_extensions(final(self).table@) == table_extensions(old(self).table@).push(
                extension@,
            ),
            table_colors(final(self).table@) == table_colors(old(self).table@).push(color),
    {
        self.table.push(ExtensionColor { extension: String::from_str(extension), color });
        assert(table_extensions(self.table@) =~= table_extensions(old(self).table@).push(
            extension@,
        ));
        assert(table_colors(self.table@) =~= table_colors(old(self).table@).push(color));
    }

    /// The colour that the table gives an extension.
    pub fn color_of(&self, extension: &String) -> (color: Color)
        ensures
            color == color_in(self.table@, extension@, 0),
    {
        let n: usize = self.table.len();
        let mut i: usize = 0;
        while i < n
            invariant
                n == self.table@.len(),
                i <= n,
                color_in(self.table@, extension@, 0) == color_in(
                    self.table@,
                    extension@,
                    i as nat,
                ),
            decreases n - i,
        {
            if self.table[i].extension == *extension {
                return self.table[i].color;
            }
            i = i + 1;
        }
        Color::rgb(180, 180, 180)
    }

    /// The colour of a file: that of what follows the last dot of its name,
    /// or of the whole name where it has no dot.
    pub fn get_file_color(&self, file_name: &str) -> (color: Color)
        ensures
            color == color_in(self.table@, after_last(file_name@, '.'), 0),
    {
        let extension = text_after_last(file_name, '.');
        self.color_of(&extension)
    }
}

} // verus!
