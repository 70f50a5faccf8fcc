use juncture_core::llm::{extraction_tool_name, ToolChoice};
use juncture_core::node::NodeFnUpdate;

#[test]
fn extraction_tool_names() {
    assert_eq!(extraction_tool_name("my_crate::Person"), "extract_my_crate_Person");
    assert_eq!(
        extraction_tool_name("alloc::vec::Vec<my::Item, Other>"),
        "extract_alloc_vec_Vec_my_Item_Other_"
    );
    assert_eq!(extraction_tool_name("a:::b"), "extract_a_:b");
    assert_eq!(extraction_tool_name(""), "extract_");
}

#[test]
fn tool_choice_and_node_wrappers() {
    let c = ToolChoice::Specific { name: "x".to_string() };
    assert!(matches!(c, ToolChoice::Specific { ref name } if name == "x"));
    assert!(matches!(ToolChoice::NoTool, ToolChoice::NoTool));
    let w = NodeFnUpdate(|x: u32| x + 1);
    assert_eq!((w.0)(1), 2);
}
