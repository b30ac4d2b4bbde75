use typed_nodes::bounds::NodeType;
use typed_nodes::generate_lua::{
    GenerateLua, LuaExpression, LuaModule, LuaStatement, Method, Metatable, TypeSignature,
};

fn plain(name: &str) -> TypeSignature {
    TypeSignature { name: name.to_string(), generics: Vec::new() }
}

fn generic(name: &str, generics: Vec<TypeSignature>) -> TypeSignature {
    TypeSignature { name: name.to_string(), generics }
}

#[test]
fn generic_keys_and_paths() {
    assert_eq!(plain("Point").get_generic_key(), "Point");
    assert_eq!(plain("Point").get_table_path(), "Point");
    let dict = generic("Dict", vec![plain("Int"), plain("Str")]);
    assert_eq!(dict.get_generic_key(), "Dict(Int,Str)");
    assert_eq!(dict.get_table_path(), "Dict.__generic_variants[\"Dict(Int,Str)\"]");
    let nested = generic("List", vec![generic("List", vec![plain("Int")])]);
    assert_eq!(nested.get_generic_key(), "List(List(Int))");
}

#[test]
fn empty_module_renders_an_empty_return() {
    let module = LuaModule::new();
    assert_eq!(module.source_code(), "return {\n}\n");
}

#[test]
fn plain_method_module() {
    let mut module = LuaModule::new();
    let mut method = Method::new_static(vec!["x", "y"]);
    method.add_statement(LuaStatement::Assign {
        variable: "result",
        expression: LuaExpression::MakeTable {
            fields: vec![
                ("x", Box::new(LuaExpression::Identifier { name: "x" })),
                ("y", Box::new(LuaExpression::Identifier { name: "y" })),
            ],
        },
    });
    method.add_statement(LuaStatement::Return {
        expression: LuaExpression::SetMetatable { variable: "result", metatable: plain("Point") },
    });
    module.add_method(&plain("Point"), "new", method);

    let expected = r#"local Point = {__generic_key = "Point"}
Point.__index = Point
local __table = Point
function __table.new(x, y)
local result = { x = x, y = y, }
return setmetatable(result, Point)
end
local __PointMeta = {}
__PointMeta.__index = __PointMeta
function __PointMeta:__call(...)

local args = {...}
if #args == 0 then
    return Point
end

local key = "Point("
for i = 1, #args do
    if i > 1 then key = key .. "," end
    key = key .. args[i].__generic_key
end
key = key .. ")"

if Point.__generic_variants[key] == nil then
    error(key .. " is not a possible instance of " .. "Point")
end

return Point.__generic_variants[key]

end
setmetatable(Point, __PointMeta)
return {
Point = Point,
}
"#;
    assert_eq!(module.source_code(), expected);
}

#[test]
fn generic_variant_module() {
    let mut module = LuaModule::new();
    let sig = generic("List", vec![plain("Int")]);
    module.add_method(&sig, "push", Method::new(vec!["item"]));

    let expected = r#"local List = {__generic_key = "List"}
List.__index = List
List.__generic_variants = {}
List.__generic_variants["List(Int)"] = {__generic_key = "List(Int)"}
List.__generic_variants["List(Int)"].__index = List.__generic_variants["List(Int)"]
local __table = List.__generic_variants["List(Int)"]
function __table:push(item)
end
local __ListMeta = {}
__ListMeta.__index = __ListMeta
function __ListMeta:__call(...)

local args = {...}
if #args == 0 then
    return List
end

local key = "List("
for i = 1, #args do
    if i > 1 then key = key .. "," end
    key = key .. args[i].__generic_key
end
key = key .. ")"

if List.__generic_variants[key] == nil then
    error(key .. " is not a possible instance of " .. "List")
end

return List.__generic_variants[key]

end
setmetatable(List, __ListMeta)
return {
List = List,
}
"#;
    assert_eq!(module.source_code(), expected);
}

#[test]
fn adding_a_method_twice_replaces_it() {
    let mut module = LuaModule::new();
    module.add_method(&plain("Node"), "go", Method::new(vec!["a"]));
    let mut replacement = Method::new(vec![]);
    replacement.set_variable_arguments();
    module.add_method(&plain("Node"), "go", replacement);
    let source = module.source_code();
    assert!(source.contains("function __table:go(...)\n"));
    assert!(!source.contains("function __table:go(a)\n"));
}

#[test]
fn variable_arguments_after_named_ones() {
    let mut module = LuaModule::new();
    let mut method = Method::new_static(vec!["first"]);
    method.set_variable_arguments();
    method.add_statement(LuaStatement::Return {
        expression: LuaExpression::MakeArgumentsTable,
    });
    module.add_method(&plain("Spread"), "collect", method);
    let source = module.source_code();
    assert!(source.contains("function __table.collect(first, ...)\nreturn {...}\nend\n"));
}

#[test]
fn quoted_string_expression() {
    let mut module = LuaModule::new();
    let mut method = Method::new_static(vec![]);
    method.add_statement(LuaStatement::Return {
        expression: LuaExpression::String { value: "hello" },
    });
    module.add_method(&plain("Greeter"), "hello", method);
    assert!(module.source_code().contains("return \"hello\"\n"));
}

struct Point;

impl NodeType for Point {
    fn spec_tag() -> u64 {
        41
    }

    fn tag() -> u64 {
        41
    }
}

impl GenerateLua for Point {
    fn spec_type_signature() -> TypeSignature {
        TypeSignature { name: "Point".to_string(), generics: Vec::new() }
    }

    fn type_signature() -> TypeSignature {
        TypeSignature { name: "Point".to_string(), generics: Vec::new() }
    }

    fn generate_lua(module: &mut LuaModule) {
        module.add_method(&Self::type_signature(), "new", Method::new_static(vec!["x", "y"]));
    }
}

#[test]
fn visit_type_reports_each_type_once() {
    let mut module = LuaModule::new();
    assert!(module.visit_type::<Point>());
    assert!(!module.visit_type::<Point>());
    // the visit declared the metatable even without methods
    assert!(module.source_code().contains("local Point = {__generic_key = \"Point\"}\n"));
}

#[test]
fn generate_lua_fills_the_module() {
    let mut module = LuaModule::new();
    if module.visit_type::<Point>() {
        Point::generate_lua(&mut module);
    }
    let source = module.source_code();
    assert!(source.contains("function __table.new(x, y)\nend\n"));
}

#[test]
fn metatable_new_is_empty() {
    // an empty metatable renders as declarations only once added to a module
    let _empty = Metatable::new();
    let mut module = LuaModule::new();
    assert!(module.visit_type::<Point>());
    let source = module.source_code();
    assert!(source.contains("Point.__index = Point\n"));
    assert!(!source.contains("__generic_variants = {}"));
}
