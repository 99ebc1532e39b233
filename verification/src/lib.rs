//! Forma Module IR and server-side rendering.
//!
//! The library parses the FMIR binary format ([`format`], [`parser`]), walks its
//! opcode stream to HTML ([`walker`]), fills it from slot values ([`slot`]), and
//! puts pages together around it ([`template`]) with asset negotiation
//! ([`assets`]) and a strict content security policy ([`csp`]).

use vstd::prelude::*;

pub mod assets;
pub mod bytes;
pub mod csp;
pub mod dump;
pub mod format;
pub mod ir_compat;
pub mod json;
pub mod number;
pub mod parser;
pub mod slot;
pub mod sw;
pub mod template;
pub mod text;
pub mod types;
pub mod walker;

pub use crate::format::{
    IrError, IrHeader, IslandEntry, IslandTrigger, Opcode, PropsMode, SectionDescriptor,
    SectionTable, SlotEntry, SlotSource, SlotType, HEADER_SIZE, IR_VERSION, MAGIC,
    SECTION_TABLE_SIZE,
};
pub use crate::ir_compat::{check_ir_compatibility, load_ir_modules};
pub use crate::number::SlotNumber;
pub use crate::parser::{IrModule, IslandTableParsed, SlotTable, StringTable};
pub use crate::slot::{json_to_slot_value, SlotData, SlotValue};
pub use crate::template::render_page;
pub use crate::types::{
    AssetManifest, PageConfig, PageOutput, RenderMode, RouteAssets, WasmAssets,
};
pub use crate::walker::{walk_island, walk_to_html};

verus! {

/// An error's message behind the stage that failed.
pub open spec fn stage_error(stage: Seq<char>, e: crate::format::ErrorView) -> Seq<char> {
    stage + crate::format::error_text(e)
}

/// The page that IR bytes and JSON slots give, or the message of the stage
/// that failed.
pub open spec fn rendered(ir_bytes: Seq<u8>, slots_json: Seq<char>) -> Result<
    Seq<char>,
    Seq<char>,
> {
    match crate::parser::module_of(ir_bytes) {
        Err(e) => Err(stage_error("IR parse: "@, e)),
        Ok(m) => match crate::slot::slots_of_json_text(slots_json, m) {
            Err(e) => Err(stage_error("slots: "@, e)),
            Ok(slots) => match crate::walker::model::html_of(m, slots) {
                Err(e) => Err(stage_error("walk: "@, e)),
                Ok(html) => Ok(html),
            },
        },
    }
}

/// The island that IR bytes and JSON slots give, or the message of the stage
/// that failed.
pub open spec fn rendered_island(ir_bytes: Seq<u8>, slots_json: Seq<char>, island_id: u16) -> Result<
    Seq<char>,
    Seq<char>,
> {
    match crate::parser::module_of(ir_bytes) {
        Err(e) => Err(stage_error("IR parse: "@, e)),
        Ok(m) => match crate::slot::slots_of_json_text(slots_json, m) {
            Err(e) => Err(stage_error("slots: "@, e)),
            Ok(slots) => match crate::walker::model::island_html_of(m, slots, island_id) {
                Err(e) => Err(stage_error("walk island: "@, e)),
                Ok(html) => Ok(html),
            },
        },
    }
}

fn stage_message(stage: &str, e: &IrError) -> (res: String)
    ensures
        res@ == stage_error(stage@, e@),
{
    let mut words = stage.to_owned();
    words.push_str(e.message().as_str());
    words
}

/// Full page render: parse IR bytes + JSON slots -> HTML string, or a message
/// that says which stage failed and why.
pub fn render(ir_bytes: &[u8], slots_json: &str) -> (res: Result<String, String>)
    ensures
        match res {
            Ok(html) => rendered(ir_bytes@, slots_json@) == Ok::<Seq<char>, Seq<char>>(html@),
            Err(words) => rendered(ir_bytes@, slots_json@) == Err::<Seq<char>, Seq<char>>(words@),
        },
{
    let module = match IrModule::parse(ir_bytes) {
        Ok(module) => module,
        Err(e) => {
            return Err(stage_message("IR parse: ", &e));
        },
    };
    let slots = match SlotData::from_json(slots_json, &module) {
        Ok(slots) => slots,
        Err(e) => {
            return Err(stage_message("slots: ", &e));
        },
    };
    match crate::walker::walk_to_html(&module, &slots) {
        Ok(html) => Ok(html),
        Err(e) => Err(stage_message("walk: ", &e)),
    }
}

/// Fragment render: parse IR bytes + JSON slots -> island inner HTML, or a
/// message that says which stage failed and why.
pub fn render_island(ir_bytes: &[u8], slots_json: &str, island_id: u16) -> (res: Result<
    String,
    String,
>)
    ensures
        match res {
            Ok(html) => rendered_island(ir_bytes@, slots_json@, island_id) == Ok::<
                Seq<char>,
                Seq<char>,
            >(html@),
            Err(words) => rendered_island(ir_bytes@, slots_json@, island_id) == Err::<
                Seq<char>,
                Seq<char>,
            >(words@),
        },
{
    let module = match IrModule::parse(ir_bytes) {
        Ok(module) => module,
        Err(e) => {
            return Err(stage_message("IR parse: ", &e));
        },
    };
    let slots = match SlotData::from_json(slots_json, &module) {
        Ok(slots) => slots,
        Err(e) => {
            return Err(stage_message("slots: ", &e));
        },
    };
    match crate::walker::walk_island(&module, &slots, island_id) {
        Ok(html) => Ok(html),
        Err(e) => Err(stage_message("walk island: ", &e)),
    }
}

/// A page is rendered stage by stage: the bytes are parsed, the slots of the module
/// are filled from the JSON text, and the module is walked over them. The first stage
/// that fails is named in front of its error.
pub proof fn rendering_goes_stage_by_stage(ir_bytes: Seq<u8>, slots_json: Seq<char>, id: u16)
    ensures
        match crate::parser::module_of(ir_bytes) {
            Err(e) => {
                let words = "IR parse: "@ + crate::format::error_text(e);
                &&& rendered(ir_bytes, slots_json) == Err::<Seq<char>, Seq<char>>(words)
                &&& rendered_island(ir_bytes, slots_json, id) == Err::<Seq<char>, Seq<char>>(words)
            },
            Ok(m) => match crate::slot::slots_of_json_text(slots_json, m) {
                Err(e) => {
                    let words = "slots: "@ + crate::format::error_text(e);
                    &&& rendered(ir_bytes, slots_json) == Err::<Seq<char>, Seq<char>>(words)
                    &&& rendered_island(ir_bytes, slots_json, id) == Err::<Seq<char>, Seq<char>>(
                        words,
                    )
                },
                Ok(slots) => {
                    &&& match crate::walker::model::html_of(m, slots) {
                        Ok(html) => rendered(ir_bytes, slots_json) == Ok::<Seq<char>, Seq<char>>(
                            html,
                        ),
                        Err(e) => rendered(ir_bytes, slots_json) == Err::<Seq<char>, Seq<char>>(
                            "walk: "@ + crate::format::error_text(e),
                        ),
                    }
                    &&& match crate::walker::model::island_html_of(m, slots, id) {
                        Ok(html) => rendered_island(ir_bytes, slots_json, id) == Ok::<
                            Seq<char>,
                            Seq<char>,
                        >(html),
                        Err(e) => rendered_island(ir_bytes, slots_json, id) == Err::<
                            Seq<char>,
                            Seq<char>,
                        >("walk island: "@ + crate::format::error_text(e)),
                    }
                },
            },
        },
{
}

} // verus!
