//! The runtime that chunks are written for, and the script that starts it in
//! development.

use vstd::prelude::*;

verus! {

/// The kind of runtime that the output includes.
#[derive(Clone, Copy, Debug, PartialEq, Eq, Structural, Hash, PartialOrd, Ord)]
pub enum RuntimeType {
    Default,
    /// A runtime that does nothing, for tests.
    Dummy,
}

impl Default for RuntimeType {
    fn default() -> (runtime_type: RuntimeType)
        ensures
            runtime_type == RuntimeType::Default,
    {
        RuntimeType::Default
    }
}

/// How the environment loads chunks.
#[derive(Clone, Copy, Debug, PartialEq, Eq, Structural, Hash, PartialOrd, Ord)]
pub enum ChunkLoading {
    /// It cannot load chunks.
    Unsupported,
    /// Chunks are loaded from the file system, by `require`.
    NodeJs,
    /// Chunks are loaded by script and link tags.
    Dom,
}

/// The environment that chunks are evaluated in.
#[derive(Clone, Copy, Debug, PartialEq, Eq, Structural, Hash, PartialOrd, Ord)]
pub struct Environment {
    pub chunk_loading: ChunkLoading,
}

/// Where the backend of the development runtime lies among the embedded files.
pub open spec fn backend_path(chunk_loading: ChunkLoading) -> Seq<char> {
    match chunk_loading {
        ChunkLoading::Unsupported => "dev/runtime/none/runtime-backend-none.ts"@,
        ChunkLoading::NodeJs => "dev/runtime/nodejs/runtime-backend-nodejs.ts"@,
        ChunkLoading::Dom => "dev/runtime/dom/runtime-backend-dom.ts"@,
    }
}

/// The start of the development runtime: nothing runs unless chunks have
/// registered themselves.
pub open spec fn dev_runtime_head() -> Seq<char> {
    "(() => {\nif (!Array.isArray(globalThis.TURBOPACK)) {\n    return;\n}\n"@
}

/// The end of the development runtime: the chunks that have registered
/// themselves are handed to the runtime, which takes over from there.
pub open spec fn dev_runtime_tail() -> Seq<char> {
    "const chunksToRegister = globalThis.TURBOPACK;\nglobalThis.TURBOPACK = { push: registerChunk };\nchunksToRegister.forEach(registerChunk);\n})();\n"@
}

/// The development runtime made of the three given scripts.
pub open spec fn dev_runtime_code(
    shared_runtime_utils: Seq<char>,
    runtime_base: Seq<char>,
    runtime_backend: Seq<char>,
) -> Seq<char> {
    dev_runtime_head() + shared_runtime_utils + runtime_base + runtime_backend
        + dev_runtime_tail()
}

/// Where the utilities that every runtime shares lie among the embedded files.
pub fn shared_runtime_utils_path() -> (path: &'static str)
    ensures
        path@ == "shared/runtime-utils.ts"@,
{
    "shared/runtime-utils.ts"
}

/// Where the base of the development runtime lies among the embedded files.
pub fn runtime_base_path() -> (path: &'static str)
    ensures
        path@ == "dev/runtime/base/runtime-base.ts"@,
{
    "dev/runtime/base/runtime-base.ts"
}

/// Where the backend of the development runtime for `environment` lies among
/// the embedded files.
pub fn runtime_backend_path(environment: &Environment) -> (path: &'static str)
    ensures
        path@ == backend_path(environment.chunk_loading),
{
    match environment.chunk_loading {
        ChunkLoading::Unsupported => "dev/runtime/none/runtime-backend-none.ts",
        ChunkLoading::NodeJs => "dev/runtime/nodejs/runtime-backend-nodejs.ts",
        ChunkLoading::Dom => "dev/runtime/dom/runtime-backend-dom.ts",
    }
}

/// The code of the development runtime, made of the shared utilities, the
/// base and the backend for the environment. The backend sets what the
/// registration of chunks needs, so the registration comes after it.
pub fn get_dev_runtime_code(
    shared_runtime_utils_code: &str,
    runtime_base_code: &str,
    runtime_backend_code: &str,
) -> (code: String)
    ensures
        code@ == dev_runtime_code(
            shared_runtime_utils_code@,
            runtime_base_code@,
            runtime_backend_code@,
        ),
{
    let mut code = String::from_str(
        "(() => {\nif (!Array.isArray(globalThis.TURBOPACK)) {\n    return;\n}\n",
    );
    code.append(shared_runtime_utils_code);
    code.append(runtime_base_code);
    code.append(runtime_backend_code);
    code.append(
        "const chunksToRegister = globalThis.TURBOPACK;\nglobalThis.TURBOPACK = { push: registerChunk };\nchunksToRegister.forEach(registerChunk);\n})();\n",
    );
    code
}

} // verus!
