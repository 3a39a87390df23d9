use chunking::runtime::{
    get_dev_runtime_code, runtime_backend_path, runtime_base_path, shared_runtime_utils_path,
    ChunkLoading, Environment, RuntimeType,
};

#[test]
fn runtime_paths() {
    assert_eq!(shared_runtime_utils_path(), "shared/runtime-utils.ts");
    assert_eq!(runtime_base_path(), "dev/runtime/base/runtime-base.ts");
    let path = |chunk_loading| runtime_backend_path(&Environment { chunk_loading });
    assert_eq!(
        path(ChunkLoading::Unsupported),
        "dev/runtime/none/runtime-backend-none.ts"
    );
    assert_eq!(
        path(ChunkLoading::NodeJs),
        "dev/runtime/nodejs/runtime-backend-nodejs.ts"
    );
    assert_eq!(path(ChunkLoading::Dom), "dev/runtime/dom/runtime-backend-dom.ts");
    assert_eq!(RuntimeType::default(), RuntimeType::Default);
}

#[test]
fn dev_runtime_code_wraps_the_scripts() {
    let code = get_dev_runtime_code("utils();\n", "base();\n", "backend();\n");
    let expected = [
        "(() => {\n",
        "if (!Array.isArray(globalThis.TURBOPACK)) {\n",
        "    return;\n",
        "}\n",
        "utils();\n",
        "base();\n",
        "backend();\n",
        "const chunksToRegister = globalThis.TURBOPACK;\n",
        "globalThis.TURBOPACK = { push: registerChunk };\n",
        "chunksToRegister.forEach(registerChunk);\n",
        "})();\n",
    ]
    .concat();
    assert_eq!(code, expected);
}
