use vstd::prelude::*;

verus! {

/// The separator between the items of a list.
#[derive(Clone, Copy, PartialEq, Eq, Debug, Structural)]
pub enum ListSeparator {
    /// `10,20`
    Comma,
    /// `10 20`
    Space,
    /// `10, 20`
    CommaSpace,
}

/// Options for writing values out.
///
/// The flags are independent of one another.
#[derive(Clone, Copy, PartialEq, Eq, Debug, Structural)]
pub struct WriteOptions {
    /// Write colors as `#RGB` where possible.
    pub trim_hex_colors: bool,
    /// Write `0.5` as `.5` and `-0.5` as `-.5`.
    pub remove_leading_zero: bool,
    /// Leave out every separator that a reader does not need.
    pub use_compact_path_notation: bool,
    /// Write the two flags of an arc without a separator between them.
    pub join_arc_to_flags: bool,
    /// Leave out a command letter that repeats the previous one (never a MoveTo).
    pub remove_duplicated_path_commands: bool,
    /// Leave out the letter of a LineTo that follows a MoveTo or another such LineTo.
    pub use_implicit_lineto_commands: bool,
    /// Write transform matrices in a shorter equivalent form where one exists.
    pub simplify_transform_matrices: bool,
    /// The separator between list items.
    pub list_separator: ListSeparator,
}

impl WriteOptions {
    /// The options that `default` returns: every flag off, items separated by a space.
    pub open spec fn spec_default() -> WriteOptions {
        WriteOptions {
            trim_hex_colors: false,
            remove_leading_zero: false,
            use_compact_path_notation: false,
            join_arc_to_flags: false,
            remove_duplicated_path_commands: false,
            use_implicit_lineto_commands: false,
            simplify_transform_matrices: false,
            list_separator: ListSeparator::Space,
        }
    }

    /// The bytes of the configured list separator.
    pub open spec fn separator_bytes(&self) -> Seq<u8> {
        match self.list_separator {
            ListSeparator::Space => seq![32u8],
            ListSeparator::Comma => seq![44u8],
            ListSeparator::CommaSpace => seq![44u8, 32u8],
        }
    }

    /// Writes the configured list separator to `out`.
    pub fn write_separator(&self, out: &mut Vec<u8>)
        ensures
            final(out)@ == old(out)@ + self.separator_bytes(),
    {
        match self.list_separator {
            ListSeparator::Space => out.push(' ' as u8),
            ListSeparator::Comma => out.push(',' as u8),
            ListSeparator::CommaSpace => {
                out.push(',' as u8);
                out.push(' ' as u8);
            },
        }
        assert(out@ =~= old(out)@ + self.separator_bytes());
    }
}

impl Default for WriteOptions {
    fn default() -> (r: WriteOptions)
        ensures
            r == WriteOptions::spec_default(),
    {
        WriteOptions {
            trim_hex_colors: false,
            remove_leading_zero: false,
            use_compact_path_notation: false,
            join_arc_to_flags: false,
            remove_duplicated_path_commands: false,
            use_implicit_lineto_commands: false,
            simplify_transform_matrices: false,
            list_separator: ListSeparator::Space,
        }
    }
}

} // verus!
