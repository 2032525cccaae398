//! The bootstrap training data: examples of common intents that every new
//! classifier learns first.
use vstd::prelude::*;
use crate::text::{is_blank_text, is_white_space};

verus! {

/// The number of bootstrap examples.
pub const BOOTSTRAP_SIZE: usize = 53;

/// The bootstrap examples as (text, intent) pairs.
pub open spec fn bootstrap_table() -> Seq<(Seq<char>, Seq<char>)> {
    seq![
        // Data operations
        ("merge these JSON files together"@, "data_merge"@),
        ("combine multiple JSON documents"@, "data_merge"@),
        ("join several data files into one"@, "data_merge"@),
        ("consolidate JSON objects"@, "data_merge"@),
        ("split this large JSON file"@, "data_split"@),
        ("break apart this data into smaller pieces"@, "data_split"@),
        ("divide this file into multiple parts"@, "data_split"@),
        ("convert JSON to CSV format"@, "data_transform"@),
        ("transform this data structure"@, "data_transform"@),
        ("change the format of this file"@, "data_transform"@),
        ("analyze this dataset for patterns"@, "data_analyze"@),
        ("examine the data for insights"@, "data_analyze"@),
        ("what trends do you see in this data"@, "data_analyze"@),
        ("give me statistics about this data"@, "data_analyze"@),
        // File operations
        ("read the contents of this file"@, "file_read"@),
        ("load this document"@, "file_read"@),
        ("open and parse this file"@, "file_read"@),
        ("save this data to a file"@, "file_write"@),
        ("write this content to disk"@, "file_write"@),
        ("create a new file with this data"@, "file_write"@),
        ("convert PDF to markdown"@, "file_convert"@),
        ("change this file format"@, "file_convert"@),
        ("export as different format"@, "file_convert"@),
        ("compare these two files"@, "file_compare"@),
        ("what's different between these documents"@, "file_compare"@),
        ("find differences in these files"@, "file_compare"@),
        // Network operations
        ("make an API request to this URL"@, "network_request"@),
        ("call this REST endpoint"@, "network_request"@),
        ("send HTTP request"@, "network_request"@),
        ("download this file from the internet"@, "network_download"@),
        ("fetch data from this URL"@, "network_download"@),
        ("retrieve file from web"@, "network_download"@),
        ("check if this website is up"@, "network_monitor"@),
        ("monitor API endpoint"@, "network_monitor"@),
        ("test connectivity to server"@, "network_monitor"@),
        // Processing operations
        ("extract text from this document"@, "extraction"@),
        ("pull out specific information"@, "extraction"@),
        ("get the important parts from this"@, "extraction"@),
        ("validate this data against schema"@, "validation"@),
        ("check if this data is correct"@, "validation"@),
        ("verify the format of this file"@, "validation"@),
        ("generate a report from this data"@, "generation"@),
        ("create summary of this information"@, "generation"@),
        ("produce documentation"@, "generation"@),
        ("classify this content"@, "classification"@),
        ("categorize this data"@, "classification"@),
        ("determine the type of this file"@, "classification"@),
        // Code operations
        ("analyze this code for issues"@, "code_analyze"@),
        ("review this source code"@, "code_analyze"@),
        ("check code quality"@, "code_analyze"@),
        ("process this text document"@, "text_process"@),
        ("clean up this text"@, "text_process"@),
        ("parse natural language"@, "text_process"@),
    ]
}

/// The bootstrap examples (`get_bootstrap_examples`).
pub fn get_bootstrap_examples() -> (r: Vec<(&'static str, &'static str)>)
    ensures
        r@.len() == BOOTSTRAP_SIZE,
        forall|i: int| 0 <= i < r@.len() ==> (#[trigger] r@[i]).0@ == bootstrap_table()[i].0 && r@[i].1@ == bootstrap_table()[i].1,
{
    let v = vec![
        // Data operations
        ("merge these JSON files together", "data_merge"),
        ("combine multiple JSON documents", "data_merge"),
        ("join several data files into one", "data_merge"),
        ("consolidate JSON objects", "data_merge"),
        ("split this large JSON file", "data_split"),
        ("break apart this data into smaller pieces", "data_split"),
        ("divide this file into multiple parts", "data_split"),
        ("convert JSON to CSV format", "data_transform"),
        ("transform this data structure", "data_transform"),
        ("change the format of this file", "data_transform"),
        ("analyze this dataset for patterns", "data_analyze"),
        ("examine the data for insights", "data_analyze"),
        ("what trends do you see in this data", "data_analyze"),
        ("give me statistics about this data", "data_analyze"),
        // File operations
        ("read the contents of this file", "file_read"),
        ("load this document", "file_read"),
        ("open and parse this file", "file_read"),
        ("save this data to a file", "file_write"),
        ("write this content to disk", "file_write"),
        ("create a new file with this data", "file_write"),
        ("convert PDF to markdown", "file_convert"),
        ("change this file format", "file_convert"),
        ("export as different format", "file_convert"),
        ("compare these two files", "file_compare"),
        ("what's different between these documents", "file_compare"),
        ("find differences in these files", "file_compare"),
        // Network operations
        ("make an API request to this URL", "network_request"),
        ("call this REST endpoint", "network_request"),
        ("send HTTP request", "network_request"),
        ("download this file from the internet", "network_download"),
        ("fetch data from this URL", "network_download"),
        ("retrieve file from web", "network_download"),
        ("check if this website is up", "network_monitor"),
        ("monitor API endpoint", "network_monitor"),
        ("test connectivity to server", "network_monitor"),
        // Processing operations
        ("extract text from this document", "extraction"),
        ("pull out specific information", "extraction"),
        ("get the important parts from this", "extraction"),
        ("validate this data against schema", "validation"),
        ("check if this data is correct", "validation"),
        ("verify the format of this file", "validation"),
        ("generate a report from this data", "generation"),
        ("create summary of this information", "generation"),
        ("produce documentation", "generation"),
        ("classify this content", "classification"),
        ("categorize this data", "classification"),
        ("determine the type of this file", "classification"),
        // Code operations
        ("analyze this code for issues", "code_analyze"),
        ("review this source code", "code_analyze"),
        ("check code quality", "code_analyze"),
        ("process this text document", "text_process"),
        ("clean up this text", "text_process"),
        ("parse natural language", "text_process"),
    ];
    assert(v@.map_values(|p: (&str, &str)| (p.0@, p.1@)) =~= bootstrap_table());
    assert forall|i: int| 0 <= i < v@.len() implies (#[trigger] v@[i]).0@ == bootstrap_table()[i].0 && v@[i].1@ == bootstrap_table()[i].1 by {
        assert(v@.map_values(|p: (&str, &str)| (p.0@, p.1@))[i] == (v@[i].0@, v@[i].1@));
    }
    v
}

/// No bootstrap text is blank: each starts with a letter.
pub proof fn lemma_bootstrap_texts_not_blank()
    ensures
        forall|i: int| 0 <= i < bootstrap_table().len() ==> !is_blank_text(#[trigger] bootstrap_table()[i].0),
{
        reveal_strlit("merge these JSON files together");
        reveal_strlit("combine multiple JSON documents");
        reveal_strlit("join several data files into one");
        reveal_strlit("consolidate JSON objects");
        reveal_strlit("split this large JSON file");
        reveal_strlit("break apart this data into smaller pieces");
        reveal_strlit("divide this file into multiple parts");
        reveal_strlit("convert JSON to CSV format");
        reveal_strlit("transform this data structure");
        reveal_strlit("change the format of this file");
        reveal_strlit("analyze this dataset for patterns");
        reveal_strlit("examine the data for insights");
        reveal_strlit("what trends do you see in this data");
        reveal_strlit("give me statistics about this data");
        reveal_strlit("read the contents of this file");
        reveal_strlit("load this document");
        reveal_strlit("open and parse this file");
        reveal_strlit("save this data to a file");
        reveal_strlit("write this content to disk");
        reveal_strlit("create a new file with this data");
        reveal_strlit("convert PDF to markdown");
        reveal_strlit("change this file format");
        reveal_strlit("export as different format");
        reveal_strlit("compare these two files");
        reveal_strlit("what's different between these documents");
        reveal_strlit("find differences in these files");
        reveal_strlit("make an API request to this URL");
        reveal_strlit("call this REST endpoint");
        reveal_strlit("send HTTP request");
        reveal_strlit("download this file from the internet");
        reveal_strlit("fetch data from this URL");
        reveal_strlit("retrieve file from web");
        reveal_strlit("check if this website is up");
        reveal_strlit("monitor API endpoint");
        reveal_strlit("test connectivity to server");
        reveal_strlit("extract text from this document");
        reveal_strlit("pull out specific information");
        reveal_strlit("get the important parts from this");
        reveal_strlit("validate this data against schema");
        reveal_strlit("check if this data is correct");
        reveal_strlit("verify the format of this file");
        reveal_strlit("generate a report from this data");
        reveal_strlit("create summary of this information");
        reveal_strlit("produce documentation");
        reveal_strlit("classify this content");
        reveal_strlit("categorize this data");
        reveal_strlit("determine the type of this file");
        reveal_strlit("analyze this code for issues");
        reveal_strlit("review this source code");
        reveal_strlit("check code quality");
        reveal_strlit("process this text document");
        reveal_strlit("clean up this text");
        reveal_strlit("parse natural language");
    assert forall|i: int| 0 <= i < bootstrap_table().len() implies !is_blank_text(#[trigger] bootstrap_table()[i].0) by {
        assert(!is_white_space(bootstrap_table()[i].0[0]));
    }
}


/// The examples of one intent: each of its texts labelled with it.
pub open spec fn labelled(intent: Seq<char>, texts: Seq<Seq<char>>) -> Seq<(Seq<char>, Seq<char>)> {
    texts.map_values(|t: Seq<char>| (t, intent))
}

/// The bootstrap data teaches each intent by its own texts, one intent
/// after another: four data merges, three data splits, three data
/// transformations, four data analyses, then the file, network, processing
/// and code operations, each text labelled with the operation it asks for.
pub proof fn lemma_bootstrap_by_intent()
    ensures
        bootstrap_table() == labelled(
            "data_merge"@,
            seq![
                "merge these JSON files together"@,
                "combine multiple JSON documents"@,
                "join several data files into one"@,
                "consolidate JSON objects"@,
            ],
        )
            + labelled(
            "data_split"@,
            seq![
                "split this large JSON file"@,
                "break apart this data into smaller pieces"@,
                "divide this file into multiple parts"@,
            ],
        )
            + labelled(
            "data_transform"@,
            seq![
                "convert JSON to CSV format"@,
                "transform this data structure"@,
                "change the format of this file"@,
            ],
        )
            + labelled(
            "data_analyze"@,
            seq![
                "analyze this dataset for patterns"@,
                "examine the data for insights"@,
                "what trends do you see in this data"@,
                "give me statistics about this data"@,
            ],
        )
            + labelled(
            "file_read"@,
            seq![
                "read the contents of this file"@,
                "load this document"@,
                "open and parse this file"@,
            ],
        )
            + labelled(
            "file_write"@,
            seq![
                "save this data to a file"@,
                "write this content to disk"@,
                "create a new file with this data"@,
            ],
        )
            + labelled(
            "file_convert"@,
            seq![
                "convert PDF to markdown"@,
                "change this file format"@,
                "export as different format"@,
            ],
        )
            + labelled(
            "file_compare"@,
            seq![
                "compare these two files"@,
                "what's different between these documents"@,
                "find differences in these files"@,
            ],
        )
            + labelled(
            "network_request"@,
            seq![
                "make an API request to this URL"@,
                "call this REST endpoint"@,
                "send HTTP request"@,
            ],
        )
            + labelled(
            "network_download"@,
            seq![
                "download this file from the internet"@,
                "fetch data from this URL"@,
                "retrieve file from web"@,
            ],
        )
            + labelled(
            "network_monitor"@,
            seq![
                "check if this website is up"@,
                "monitor API endpoint"@,
                "test connectivity to server"@,
            ],
        )
            + labelled(
            "extraction"@,
            seq![
                "extract text from this document"@,
                "pull out specific information"@,
                "get the important parts from this"@,
            ],
        )
            + labelled(
            "validation"@,
            seq![
                "validate this data against schema"@,
                "check if this data is correct"@,
                "verify the format of this file"@,
            ],
        )
            + labelled(
            "generation"@,
            seq![
                "generate a report from this data"@,
                "create summary of this information"@,
                "produce documentation"@,
            ],
        )
            + labelled(
            "classification"@,
            seq![
                "classify this content"@,
                "categorize this data"@,
                "determine the type of this file"@,
            ],
        )
            + labelled(
            "code_analyze"@,
            seq![
                "analyze this code for issues"@,
                "review this source code"@,
                "check code quality"@,
            ],
        )
            + labelled(
            "text_process"@,
            seq![
                "process this text document"@,
                "clean up this text"@,
                "parse natural language"@,
            ],
        ),
{
}

} // verus!
