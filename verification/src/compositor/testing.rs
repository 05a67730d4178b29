//! A stand-in for a compositor, to exercise what is common to all plugins.

use vstd::prelude::*;

use crate::compositor::Compositor;
use crate::env::Environment;
use crate::input::{InputConfig, InputView};
use crate::layout::{OutputState, OutputView};
use crate::text::{begins, starts_with, views};

verus! {

/// A plugin that renders but has no session — the shape a "write the file and
/// reload it yourself" compositor would take.
pub struct FileOnly;

impl Compositor for FileOnly {
    open spec fn named(&self) -> Seq<char> {
        "file-only"@
    }

    open spec fn labelled(&self) -> Seq<char> {
        "file only"@
    }

    open spec fn runs(&self, env: Environment) -> bool {
        false
    }

    open spec fn dir_in(&self, env: Environment) -> Seq<char> {
        "/tmp"@
    }

    open spec fn main_file(&self) -> Seq<char> {
        "config"@
    }

    open spec fn monitors_name(&self) -> Seq<char> {
        "monitors.conf"@
    }

    open spec fn input_name(&self) -> Seq<char> {
        "input.conf"@
    }

    open spec fn marker(&self) -> Seq<char> {
        "#"@
    }

    open spec fn directive(&self, output: OutputView) -> Seq<char> {
        "output "@ + output.name
    }

    open spec fn input_texts(&self, input: InputView) -> Seq<Seq<char>> {
        Seq::empty()
    }

    open spec fn statement(&self, main: Seq<char>, generated: Seq<char>, home: Seq<char>) -> Seq<
        char,
    > {
        "include "@ + generated
    }

    open spec fn pulls_in(&self, line: Seq<char>, generated: Seq<char>) -> bool {
        starts_with(line, "include"@)
    }

    open spec fn pulls(&self, line: Seq<char>) -> bool {
        starts_with(line, "include"@)
    }

    open spec fn opens(&self, line: Seq<char>) -> bool {
        starts_with(line, "output "@)
    }

    open spec fn drives(&self) -> bool {
        false
    }

    fn id(&self) -> (r: &'static str) {
        "file-only"
    }

    fn label(&self) -> (r: &'static str) {
        "file only"
    }

    fn running(&self, env: &Environment) -> (r: bool) {
        false
    }

    fn config_dir(&self, env: &Environment) -> (r: String) {
        "/tmp".to_owned()
    }

    fn main_config(&self, env: &Environment) -> (r: String) {
        crate::path::join_path("/tmp", "config")
    }

    fn monitors_file(&self) -> (r: &'static str) {
        "monitors.conf"
    }

    fn input_file(&self) -> (r: &'static str) {
        "input.conf"
    }

    fn comment(&self) -> (r: &'static str) {
        proof {
            reveal_strlit("#");
        }
        "#"
    }

    fn output_directive(&self, output: &OutputState) -> (r: String) {
        let mut s = "output ".to_owned();
        s.append(output.name.as_str());
        s
    }

    fn input_directives(&self, input: &InputConfig) -> (r: Vec<String>) {
        let r: Vec<String> = Vec::new();
        assert(views(r@) =~= Seq::empty());
        r
    }

    fn include_statement(&self, main: &str, generated: &str, home: &str) -> (r: String) {
        let mut s = "include ".to_owned();
        s.append(generated);
        s
    }

    fn includes(&self, line: &str, generated: &str) -> (r: bool) {
        begins(line, "include")
    }

    fn is_include(&self, line: &str) -> (r: bool) {
        begins(line, "include")
    }

    fn opens_output(&self, line: &str) -> (r: bool) {
        begins(line, "output ")
    }

    fn drives_sessions(&self) -> (r: bool) {
        false
    }
}

} // verus!
