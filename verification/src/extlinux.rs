//! Boot entries in the extlinux format, for boot loaders that read `extlinux.conf`.
use vstd::prelude::*;

use crate::generation::Generation;
use crate::text::{chars_to_string, decimal, decimal_chars, join_strings, joined, push_str, str_chars, strings_view};

verus! {

/// One boot entry of an extlinux configuration.
pub struct ExtlinuxEntry {
    pub label: String,
    pub menu_label: String,
    pub kernel: String,
    pub initrd: Option<String>,
    pub extra_kernel_params: Option<String>,
    pub device_tree_file: Option<String>,
    pub device_tree_dir: Option<String>,
}

/// An extlinux configuration: its entries in order.
pub type ExtlinuxConfig = Vec<ExtlinuxEntry>;

/// The text of an optional line: the keyword and the value, or nothing.
pub open spec fn optional_line(keyword: Seq<char>, value: Option<String>) -> Seq<char> {
    match value {
        Some(v) => keyword + v@,
        None => Seq::empty(),
    }
}

impl ExtlinuxEntry {
    /// The text of the entry, as its `Display` writes it: the parts follow one another without
    /// separator.
    pub open spec fn spec_render(&self) -> Seq<char> {
        "LABEL "@ + self.label@ + "MENU LABEL "@ + self.menu_label@ + "LINUX "@ + self.kernel@
            + optional_line("INITRD "@, self.initrd) + optional_line("APPEND "@, self.extra_kernel_params)
            + optional_line("FDT "@, self.device_tree_file) + optional_line("FDTDIR "@, self.device_tree_dir)
    }

    /// The entry of a generation: labelled `nixos-{version}`, shown as `NixOS` and the
    /// generation's description, with its kernel, initrd and parameters.
    pub fn from_generation(value: Generation) -> (r: Self)
        requires
            value.wf(),
        ensures
            r.label@ == "nixos-"@ + decimal(value.version as nat),
            r.menu_label@ == "NixOS "@ + value.spec_describe(),
            r.kernel == value.spec.bootspec.kernel,
            r.initrd == value.spec.bootspec.initrd,
            r.extra_kernel_params matches Some(p) && p@ == joined(strings_view(value.spec.bootspec.kernel_params@), " "@),
            r.device_tree_file is None,
            r.device_tree_dir is None,
    {
        let mut label: Vec<char> = Vec::new();
        push_str(&mut label, "nixos-");
        crate::text::push_chars(&mut label, &decimal_chars(value.version));
        let mut menu: Vec<char> = Vec::new();
        push_str(&mut menu, "NixOS ");
        push_str(&mut menu, value.describe().as_str());
        let params = join_strings(value.spec.bootspec.kernel_params.as_slice(), " ");
        ExtlinuxEntry {
            label: chars_to_string(&label),
            menu_label: chars_to_string(&menu),
            kernel: value.spec.bootspec.kernel,
            initrd: value.spec.bootspec.initrd,
            extra_kernel_params: Some(params),
            device_tree_file: None,
            device_tree_dir: None,
        }
    }

    /// The text of the entry.
    pub fn to_string(&self) -> (r: String)
        ensures
            r@ == self.spec_render(),
    {
        let mut v: Vec<char> = Vec::new();
        push_str(&mut v, "LABEL ");
        push_str(&mut v, self.label.as_str());
        push_str(&mut v, "MENU LABEL ");
        push_str(&mut v, self.menu_label.as_str());
        push_str(&mut v, "LINUX ");
        push_str(&mut v, self.kernel.as_str());
        push_optional(&mut v, "INITRD ", &self.initrd);
        push_optional(&mut v, "APPEND ", &self.extra_kernel_params);
        push_optional(&mut v, "FDT ", &self.device_tree_file);
        push_optional(&mut v, "FDTDIR ", &self.device_tree_dir);
        chars_to_string(&v)
    }
}

fn push_optional(v: &mut Vec<char>, keyword: &str, value: &Option<String>)
    ensures
        final(v)@ == old(v)@ + optional_line(keyword@, *value),
{
    match value {
        Some(s) => {
            push_str(v, keyword);
            push_str(v, s.as_str());
        },
        None => {
            assert(old(v)@ + Seq::<char>::empty() =~= old(v)@);
        },
    }
}

} // verus!
