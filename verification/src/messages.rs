//! The fixed texts the editor shows: status messages, prompt labels
//! and status-bar labels, each with its exact byte content.

use vstd::prelude::*;

use crate::syntax::bytes_of;

verus! {

/// The start-up help line. The text reads `Help: Ctrl-S = save | CTRL-q = quit | CTRL-f find`.
pub open spec fn help_message_spec() -> Seq<u8> {
    seq![72u8, 101u8, 108u8, 112u8, 58u8, 32u8, 67u8, 116u8, 114u8, 108u8, 45u8, 83u8, 32u8, 61u8, 32u8, 115u8, 97u8, 118u8, 101u8, 32u8, 124u8, 32u8, 67u8, 84u8, 82u8, 76u8, 45u8, 113u8, 32u8, 61u8, 32u8, 113u8, 117u8, 105u8, 116u8, 32u8, 124u8, 32u8, 67u8, 84u8, 82u8, 76u8, 45u8, 102u8, 32u8, 102u8, 105u8, 110u8, 100u8]
}

pub fn help_message() -> (r: Vec<u8>)
    ensures
        r@ == help_message_spec(),
{
    let r = bytes_of([72u8, 101u8, 108u8, 112u8, 58u8, 32u8, 67u8, 116u8, 114u8, 108u8, 45u8, 83u8, 32u8, 61u8, 32u8, 115u8, 97u8, 118u8, 101u8, 32u8, 124u8, 32u8, 67u8, 84u8, 82u8, 76u8, 45u8, 113u8, 32u8, 61u8, 32u8, 113u8, 117u8, 105u8, 116u8, 32u8, 124u8, 32u8, 67u8, 84u8, 82u8, 76u8, 45u8, 102u8, 32u8, 102u8, 105u8, 110u8, 100u8]);
    proof {
        assert(r@ =~= help_message_spec());
    }
    r
}

/// Prefix of the message shown when rules are selected for a file name. The text reads `Updated syntax for `.
pub open spec fn updated_syntax_prefix_spec() -> Seq<u8> {
    seq![85u8, 112u8, 100u8, 97u8, 116u8, 101u8, 100u8, 32u8, 115u8, 121u8, 110u8, 116u8, 97u8, 120u8, 32u8, 102u8, 111u8, 114u8, 32u8]
}

pub fn updated_syntax_prefix() -> (r: Vec<u8>)
    ensures
        r@ == updated_syntax_prefix_spec(),
{
    let r = bytes_of([85u8, 112u8, 100u8, 97u8, 116u8, 101u8, 100u8, 32u8, 115u8, 121u8, 110u8, 116u8, 97u8, 120u8, 32u8, 102u8, 111u8, 114u8, 32u8]);
    proof {
        assert(r@ =~= updated_syntax_prefix_spec());
    }
    r
}

/// Shown when the save-as prompt is cancelled. The text reads `Save Canceled`.
pub open spec fn save_canceled_message_spec() -> Seq<u8> {
    seq![83u8, 97u8, 118u8, 101u8, 32u8, 67u8, 97u8, 110u8, 99u8, 101u8, 108u8, 101u8, 100u8]
}

pub fn save_canceled_message() -> (r: Vec<u8>)
    ensures
        r@ == save_canceled_message_spec(),
{
    let r = bytes_of([83u8, 97u8, 118u8, 101u8, 32u8, 67u8, 97u8, 110u8, 99u8, 101u8, 108u8, 101u8, 100u8]);
    proof {
        assert(r@ =~= save_canceled_message_spec());
    }
    r
}

/// Shown after a successful save. The text reads `Saved!`.
pub open spec fn saved_message_spec() -> Seq<u8> {
    seq![83u8, 97u8, 118u8, 101u8, 100u8, 33u8]
}

pub fn saved_message() -> (r: Vec<u8>)
    ensures
        r@ == saved_message_spec(),
{
    let r = bytes_of([83u8, 97u8, 118u8, 101u8, 100u8, 33u8]);
    proof {
        assert(r@ =~= saved_message_spec());
    }
    r
}

/// Prefix of the message for a failed lock-file creation. The text reads `Could not create lock file: `.
pub open spec fn create_failed_prefix_spec() -> Seq<u8> {
    seq![67u8, 111u8, 117u8, 108u8, 100u8, 32u8, 110u8, 111u8, 116u8, 32u8, 99u8, 114u8, 101u8, 97u8, 116u8, 101u8, 32u8, 108u8, 111u8, 99u8, 107u8, 32u8, 102u8, 105u8, 108u8, 101u8, 58u8, 32u8]
}

pub fn create_failed_prefix() -> (r: Vec<u8>)
    ensures
        r@ == create_failed_prefix_spec(),
{
    let r = bytes_of([67u8, 111u8, 117u8, 108u8, 100u8, 32u8, 110u8, 111u8, 116u8, 32u8, 99u8, 114u8, 101u8, 97u8, 116u8, 101u8, 32u8, 108u8, 111u8, 99u8, 107u8, 32u8, 102u8, 105u8, 108u8, 101u8, 58u8, 32u8]);
    proof {
        assert(r@ =~= create_failed_prefix_spec());
    }
    r
}

/// Prefix of the message for a failed lock-file write. The text reads `Could not write to lock file: `.
pub open spec fn write_failed_prefix_spec() -> Seq<u8> {
    seq![67u8, 111u8, 117u8, 108u8, 100u8, 32u8, 110u8, 111u8, 116u8, 32u8, 119u8, 114u8, 105u8, 116u8, 101u8, 32u8, 116u8, 111u8, 32u8, 108u8, 111u8, 99u8, 107u8, 32u8, 102u8, 105u8, 108u8, 101u8, 58u8, 32u8]
}

pub fn write_failed_prefix() -> (r: Vec<u8>)
    ensures
        r@ == write_failed_prefix_spec(),
{
    let r = bytes_of([67u8, 111u8, 117u8, 108u8, 100u8, 32u8, 110u8, 111u8, 116u8, 32u8, 119u8, 114u8, 105u8, 116u8, 101u8, 32u8, 116u8, 111u8, 32u8, 108u8, 111u8, 99u8, 107u8, 32u8, 102u8, 105u8, 108u8, 101u8, 58u8, 32u8]);
    proof {
        assert(r@ =~= write_failed_prefix_spec());
    }
    r
}

/// Prefix of the message for a failed rename onto the target. The text reads `Could save file: `.
pub open spec fn rename_failed_prefix_spec() -> Seq<u8> {
    seq![67u8, 111u8, 117u8, 108u8, 100u8, 32u8, 115u8, 97u8, 118u8, 101u8, 32u8, 102u8, 105u8, 108u8, 101u8, 58u8, 32u8]
}

pub fn rename_failed_prefix() -> (r: Vec<u8>)
    ensures
        r@ == rename_failed_prefix_spec(),
{
    let r = bytes_of([67u8, 111u8, 117u8, 108u8, 100u8, 32u8, 115u8, 97u8, 118u8, 101u8, 32u8, 102u8, 105u8, 108u8, 101u8, 58u8, 32u8]);
    proof {
        assert(r@ =~= rename_failed_prefix_spec());
    }
    r
}

/// Prefix of the unsaved-changes warning. The text reads `WARNING! File has unsaved changes! Press Ctrl-Q `.
pub open spec fn warn_quit_prefix_spec() -> Seq<u8> {
    seq![87u8, 65u8, 82u8, 78u8, 73u8, 78u8, 71u8, 33u8, 32u8, 70u8, 105u8, 108u8, 101u8, 32u8, 104u8, 97u8, 115u8, 32u8, 117u8, 110u8, 115u8, 97u8, 118u8, 101u8, 100u8, 32u8, 99u8, 104u8, 97u8, 110u8, 103u8, 101u8, 115u8, 33u8, 32u8, 80u8, 114u8, 101u8, 115u8, 115u8, 32u8, 67u8, 116u8, 114u8, 108u8, 45u8, 81u8, 32u8]
}

pub fn warn_quit_prefix() -> (r: Vec<u8>)
    ensures
        r@ == warn_quit_prefix_spec(),
{
    let r = bytes_of([87u8, 65u8, 82u8, 78u8, 73u8, 78u8, 71u8, 33u8, 32u8, 70u8, 105u8, 108u8, 101u8, 32u8, 104u8, 97u8, 115u8, 32u8, 117u8, 110u8, 115u8, 97u8, 118u8, 101u8, 100u8, 32u8, 99u8, 104u8, 97u8, 110u8, 103u8, 101u8, 115u8, 33u8, 32u8, 80u8, 114u8, 101u8, 115u8, 115u8, 32u8, 67u8, 116u8, 114u8, 108u8, 45u8, 81u8, 32u8]);
    proof {
        assert(r@ =~= warn_quit_prefix_spec());
    }
    r
}

/// Suffix of the unsaved-changes warning. The text reads ` more times to quit.`.
pub open spec fn warn_quit_suffix_spec() -> Seq<u8> {
    seq![32u8, 109u8, 111u8, 114u8, 101u8, 32u8, 116u8, 105u8, 109u8, 101u8, 115u8, 32u8, 116u8, 111u8, 32u8, 113u8, 117u8, 105u8, 116u8, 46u8]
}

pub fn warn_quit_suffix() -> (r: Vec<u8>)
    ensures
        r@ == warn_quit_suffix_spec(),
{
    let r = bytes_of([32u8, 109u8, 111u8, 114u8, 101u8, 32u8, 116u8, 105u8, 109u8, 101u8, 115u8, 32u8, 116u8, 111u8, 32u8, 113u8, 117u8, 105u8, 116u8, 46u8]);
    proof {
        assert(r@ =~= warn_quit_suffix_spec());
    }
    r
}

/// The save-as prompt label. The text reads `(ESC to cancel) Save as: `.
pub open spec fn prompt_save_as_spec() -> Seq<u8> {
    seq![40u8, 69u8, 83u8, 67u8, 32u8, 116u8, 111u8, 32u8, 99u8, 97u8, 110u8, 99u8, 101u8, 108u8, 41u8, 32u8, 83u8, 97u8, 118u8, 101u8, 32u8, 97u8, 115u8, 58u8, 32u8]
}

pub fn prompt_save_as() -> (r: Vec<u8>)
    ensures
        r@ == prompt_save_as_spec(),
{
    let r = bytes_of([40u8, 69u8, 83u8, 67u8, 32u8, 116u8, 111u8, 32u8, 99u8, 97u8, 110u8, 99u8, 101u8, 108u8, 41u8, 32u8, 83u8, 97u8, 118u8, 101u8, 32u8, 97u8, 115u8, 58u8, 32u8]);
    proof {
        assert(r@ =~= prompt_save_as_spec());
    }
    r
}

/// The search prompt label. The text reads `(Use ESC/Arrows/Enter) Search: `.
pub open spec fn prompt_search_spec() -> Seq<u8> {
    seq![40u8, 85u8, 115u8, 101u8, 32u8, 69u8, 83u8, 67u8, 47u8, 65u8, 114u8, 114u8, 111u8, 119u8, 115u8, 47u8, 69u8, 110u8, 116u8, 101u8, 114u8, 41u8, 32u8, 83u8, 101u8, 97u8, 114u8, 99u8, 104u8, 58u8, 32u8]
}

pub fn prompt_search() -> (r: Vec<u8>)
    ensures
        r@ == prompt_search_spec(),
{
    let r = bytes_of([40u8, 85u8, 115u8, 101u8, 32u8, 69u8, 83u8, 67u8, 47u8, 65u8, 114u8, 114u8, 111u8, 119u8, 115u8, 47u8, 69u8, 110u8, 116u8, 101u8, 114u8, 41u8, 32u8, 83u8, 101u8, 97u8, 114u8, 99u8, 104u8, 58u8, 32u8]);
    proof {
        assert(r@ =~= prompt_search_spec());
    }
    r
}

/// The search prompt label when nothing matched. The text reads `(ESC to quit) No results for: `.
pub open spec fn prompt_no_results_spec() -> Seq<u8> {
    seq![40u8, 69u8, 83u8, 67u8, 32u8, 116u8, 111u8, 32u8, 113u8, 117u8, 105u8, 116u8, 41u8, 32u8, 78u8, 111u8, 32u8, 114u8, 101u8, 115u8, 117u8, 108u8, 116u8, 115u8, 32u8, 102u8, 111u8, 114u8, 58u8, 32u8]
}

pub fn prompt_no_results() -> (r: Vec<u8>)
    ensures
        r@ == prompt_no_results_spec(),
{
    let r = bytes_of([40u8, 69u8, 83u8, 67u8, 32u8, 116u8, 111u8, 32u8, 113u8, 117u8, 105u8, 116u8, 41u8, 32u8, 78u8, 111u8, 32u8, 114u8, 101u8, 115u8, 117u8, 108u8, 116u8, 115u8, 32u8, 102u8, 111u8, 114u8, 58u8, 32u8]);
    proof {
        assert(r@ =~= prompt_no_results_spec());
    }
    r
}

/// Status-bar stand-in for an unnamed document. The text reads `[No Name]`.
pub open spec fn no_name_label_spec() -> Seq<u8> {
    seq![91u8, 78u8, 111u8, 32u8, 78u8, 97u8, 109u8, 101u8, 93u8]
}

pub fn no_name_label() -> (r: Vec<u8>)
    ensures
        r@ == no_name_label_spec(),
{
    let r = bytes_of([91u8, 78u8, 111u8, 32u8, 78u8, 97u8, 109u8, 101u8, 93u8]);
    proof {
        assert(r@ =~= no_name_label_spec());
    }
    r
}

/// Status-bar mark for unsaved changes. The text reads ` (modified) `.
pub open spec fn modified_label_spec() -> Seq<u8> {
    seq![32u8, 40u8, 109u8, 111u8, 100u8, 105u8, 102u8, 105u8, 101u8, 100u8, 41u8, 32u8]
}

pub fn modified_label() -> (r: Vec<u8>)
    ensures
        r@ == modified_label_spec(),
{
    let r = bytes_of([32u8, 40u8, 109u8, 111u8, 100u8, 105u8, 102u8, 105u8, 101u8, 100u8, 41u8, 32u8]);
    proof {
        assert(r@ =~= modified_label_spec());
    }
    r
}

/// Status-bar stand-in for an unknown file type. The text reads `no ft`.
pub open spec fn no_filetype_label_spec() -> Seq<u8> {
    seq![110u8, 111u8, 32u8, 102u8, 116u8]
}

pub fn no_filetype_label() -> (r: Vec<u8>)
    ensures
        r@ == no_filetype_label_spec(),
{
    let r = bytes_of([110u8, 111u8, 32u8, 102u8, 116u8]);
    proof {
        assert(r@ =~= no_filetype_label_spec());
    }
    r
}

/// Status-bar separator between name and row count. The text reads ` - `.
pub open spec fn lines_separator_spec() -> Seq<u8> {
    seq![32u8, 45u8, 32u8]
}

pub fn lines_separator() -> (r: Vec<u8>)
    ensures
        r@ == lines_separator_spec(),
{
    let r = bytes_of([32u8, 45u8, 32u8]);
    proof {
        assert(r@ =~= lines_separator_spec());
    }
    r
}

/// Status-bar word after the row count. The text reads ` lines `.
pub open spec fn lines_label_spec() -> Seq<u8> {
    seq![32u8, 108u8, 105u8, 110u8, 101u8, 115u8, 32u8]
}

pub fn lines_label() -> (r: Vec<u8>)
    ensures
        r@ == lines_label_spec(),
{
    let r = bytes_of([32u8, 108u8, 105u8, 110u8, 101u8, 115u8, 32u8]);
    proof {
        assert(r@ =~= lines_label_spec());
    }
    r
}

/// The welcome line of an empty document. The text reads `ViMacs Editor -- Version 0.1.0`.
pub open spec fn welcome_message_spec() -> Seq<u8> {
    seq![86u8, 105u8, 77u8, 97u8, 99u8, 115u8, 32u8, 69u8, 100u8, 105u8, 116u8, 111u8, 114u8, 32u8, 45u8, 45u8, 32u8, 86u8, 101u8, 114u8, 115u8, 105u8, 111u8, 110u8, 32u8, 48u8, 46u8, 49u8, 46u8, 48u8]
}

pub fn welcome_message() -> (r: Vec<u8>)
    ensures
        r@ == welcome_message_spec(),
{
    let r = bytes_of([86u8, 105u8, 77u8, 97u8, 99u8, 115u8, 32u8, 69u8, 100u8, 105u8, 116u8, 111u8, 114u8, 32u8, 45u8, 45u8, 32u8, 86u8, 101u8, 114u8, 115u8, 105u8, 111u8, 110u8, 32u8, 48u8, 46u8, 49u8, 46u8, 48u8]);
    proof {
        assert(r@ =~= welcome_message_spec());
    }
    r
}

} // verus!
