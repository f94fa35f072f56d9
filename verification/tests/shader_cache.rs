//! Which shaders a change reaches, and when a shader is fit to be compiled.
use bevy_easy_compute::prelude::{
    AppPipelineCache, CachedAppComputePipelineId, CachedPipelineState, ComputePipeline, PipelineCacheError,
};
use bevy_easy_compute::pipeline_cache::ShaderEvent;
use bevy_easy_compute::shader_cache::{Shader, ShaderCache, ShaderImport};

fn asset(path: &str) -> ShaderImport {
    ShaderImport::AssetPath(path.to_string())
}

fn custom(name: &str) -> ShaderImport {
    ShaderImport::Custom(name.to_string())
}

/// A shader that is imported by the asset path `path` and imports `imports`.
fn shader(path: &str, imports: Vec<ShaderImport>) -> Shader {
    Shader { import_path: asset(path), imports }
}

fn sorted(mut names: Vec<String>) -> Vec<String> {
    names.sort();
    names
}

#[test]
fn the_two_kinds_of_import_are_filed_apart() {
    assert_eq!(asset("x").key(), "ax");
    assert_eq!(custom("x").key(), "cx");
    assert_eq!(asset("").key(), "a");
    assert_eq!(custom("größe").key(), "cgröße");
    assert_eq!(asset("a/b.wgsl").duplicate().key(), "aa/b.wgsl");
}

#[test]
fn a_shader_that_is_not_there_cannot_be_compiled() {
    let mut cache = ShaderCache::new();
    assert_eq!(cache.prepare("main"), Err(PipelineCacheError::ShaderNotLoaded));
    cache.set_shader("main", shader("main.wgsl", vec![]));
    assert_eq!(cache.prepare("main"), Ok(()));
    cache.remove("main");
    assert_eq!(cache.prepare("main"), Err(PipelineCacheError::ShaderNotLoaded));
}

#[test]
fn a_shader_waits_for_the_assets_that_it_imports() {
    let mut cache = ShaderCache::new();
    cache.set_shader("main", shader("main.wgsl", vec![asset("lib.wgsl"), custom("noise"), asset("util.wgsl")]));
    assert_eq!(cache.prepare("main"), Err(PipelineCacheError::ShaderImportNotYetAvailable));
    cache.set_shader("lib", shader("lib.wgsl", vec![]));
    assert_eq!(cache.prepare("main"), Err(PipelineCacheError::ShaderImportNotYetAvailable));
    cache.set_shader("util", shader("util.wgsl", vec![]));
    // The import by name is not waited for.
    assert_eq!(cache.prepare("main"), Ok(()));
    assert_eq!(cache.prepare("lib"), Ok(()));
}

#[test]
fn an_import_that_is_there_already_is_resolved_at_once() {
    let mut cache = ShaderCache::new();
    cache.set_shader("lib", shader("lib.wgsl", vec![]));
    cache.set_shader("main", shader("main.wgsl", vec![asset("lib.wgsl")]));
    assert_eq!(cache.prepare("main"), Ok(()));
    // An import stays resolved when the shader that provided it goes away.
    cache.remove("lib");
    assert_eq!(cache.prepare("main"), Ok(()));
}

#[test]
fn an_asset_that_is_imported_twice_is_never_resolved_twice() {
    let mut cache = ShaderCache::new();
    cache.set_shader("lib", shader("lib.wgsl", vec![]));
    cache.set_shader("main", shader("main.wgsl", vec![asset("lib.wgsl"), asset("lib.wgsl")]));
    assert_eq!(cache.prepare("main"), Err(PipelineCacheError::ShaderImportNotYetAvailable));
}

#[test]
fn a_change_reaches_the_shader_and_whatever_imports_it() {
    let mut cache = ShaderCache::new();
    assert_eq!(cache.clear("lib"), vec!["lib".to_string()]);
    cache.set_shader("lib", shader("lib.wgsl", vec![]));
    cache.set_shader("mid", shader("mid.wgsl", vec![asset("lib.wgsl")]));
    cache.set_shader("top", shader("top.wgsl", vec![asset("mid.wgsl"), asset("lib.wgsl")]));
    cache.set_shader("other", shader("other.wgsl", vec![]));
    assert_eq!(sorted(cache.clear("lib")), vec!["lib", "mid", "top"]);
    assert_eq!(sorted(cache.clear("mid")), vec!["mid", "top"]);
    assert_eq!(cache.clear("top"), vec!["top"]);
    assert_eq!(cache.clear("other"), vec!["other"]);
    assert_eq!(cache.clear("unknown"), vec!["unknown"]);
}

#[test]
fn a_change_reaches_a_shader_that_came_before_what_it_imports() {
    let mut cache = ShaderCache::new();
    cache.set_shader("top", shader("top.wgsl", vec![asset("lib.wgsl")]));
    assert_eq!(cache.clear("lib"), vec!["lib"]);
    cache.set_shader("lib", shader("lib.wgsl", vec![]));
    assert_eq!(cache.clear("lib"), vec!["lib", "top"]);
}

#[test]
fn imports_in_a_circle_do_no_harm() {
    let mut cache = ShaderCache::new();
    cache.set_shader("a", shader("a.wgsl", vec![asset("b.wgsl")]));
    cache.set_shader("b", shader("b.wgsl", vec![asset("a.wgsl")]));
    cache.set_shader("c", shader("c.wgsl", vec![asset("c.wgsl"), asset("a.wgsl")]));
    assert_eq!(sorted(cache.clear("a")), vec!["a", "b", "c"]);
    assert_eq!(sorted(cache.clear("b")), vec!["a", "b", "c"]);
    assert_eq!(cache.clear("c"), vec!["c"]);
    assert_eq!(cache.prepare("a"), Ok(()));
    assert_eq!(cache.prepare("c"), Ok(()));
}

/// A cache with one pipeline made from `main`, which imports `lib`.
fn cache_with_a_pipeline() -> (AppPipelineCache, CachedAppComputePipelineId) {
    let mut cache = AppPipelineCache::new();
    let id = cache.queue_app_compute_pipeline("main");
    assert_eq!(cache.process_queue(), vec![id]);
    assert_eq!(cache.shader(id), "main");
    (cache, id)
}

#[test]
fn a_pipeline_is_compiled_once_its_shader_is_fit() {
    let (mut cache, id) = cache_with_a_pipeline();
    assert_eq!(cache.prepare(id), Err(PipelineCacheError::ShaderNotLoaded));
    cache.complete(id, CachedPipelineState::Failed(PipelineCacheError::ShaderNotLoaded));
    assert_eq!(cache.set_shader("main", shader("main.wgsl", vec![asset("lib.wgsl")])), vec!["main"]);
    assert_eq!(cache.process_queue(), vec![id]);
    assert_eq!(cache.prepare(id), Err(PipelineCacheError::ShaderImportNotYetAvailable));
    cache.complete(id, CachedPipelineState::Failed(PipelineCacheError::ShaderImportNotYetAvailable));
    assert_eq!(cache.set_shader("lib", shader("lib.wgsl", vec![])), vec!["lib"]);
    assert_eq!(cache.process_queue(), vec![id]);
    assert_eq!(cache.prepare(id), Ok(()));
    cache.complete(id, CachedPipelineState::Ready(ComputePipeline { id: 1 }));
    assert_eq!(cache.process_queue(), vec![]);
    assert_eq!(cache.get_compute_pipeline(id), Some(ComputePipeline { id: 1 }));
}

#[test]
fn a_change_of_an_import_sends_the_pipeline_back() {
    let (mut cache, id) = cache_with_a_pipeline();
    cache.set_shader("lib", shader("lib.wgsl", vec![]));
    cache.set_shader("main", shader("main.wgsl", vec![asset("lib.wgsl")]));
    assert_eq!(cache.prepare(id), Ok(()));
    cache.complete(id, CachedPipelineState::Ready(ComputePipeline { id: 1 }));
    assert_eq!(sorted(cache.set_shader("lib", shader("lib.wgsl", vec![]))), vec!["lib", "main"]);
    assert_eq!(cache.get_compute_pipeline(id), None);
    assert_eq!(cache.process_queue(), vec![id]);
    assert_eq!(cache.prepare(id), Ok(()));
    cache.complete(id, CachedPipelineState::Ready(ComputePipeline { id: 2 }));
    assert_eq!(cache.get_compute_pipeline(id), Some(ComputePipeline { id: 2 }));
    // A shader that nothing imports reaches no pipeline.
    assert_eq!(cache.set_shader("other", shader("other.wgsl", vec![])), vec!["other"]);
    assert_eq!(cache.get_compute_pipeline(id), Some(ComputePipeline { id: 2 }));
    assert_eq!(cache.process_queue(), vec![]);
}

#[test]
fn the_loss_of_a_shader_sends_its_pipeline_back_for_good() {
    let (mut cache, id) = cache_with_a_pipeline();
    cache.set_shader("main", shader("main.wgsl", vec![]));
    assert_eq!(cache.prepare(id), Ok(()));
    cache.complete(id, CachedPipelineState::Ready(ComputePipeline { id: 1 }));
    assert_eq!(cache.remove_shader("main"), vec!["main"]);
    assert_eq!(cache.get_compute_pipeline(id), None);
    assert_eq!(cache.process_queue(), vec![id]);
    assert_eq!(cache.prepare(id), Err(PipelineCacheError::ShaderNotLoaded));
}

#[test]
fn a_pipeline_whose_shader_was_never_fit_is_not_sent_back() {
    let (mut cache, id) = cache_with_a_pipeline();
    // The pipeline was compiled without the cache being asked first.
    cache.complete(id, CachedPipelineState::Ready(ComputePipeline { id: 1 }));
    cache.set_shader("main", shader("main.wgsl", vec![]));
    assert_eq!(cache.get_compute_pipeline(id), Some(ComputePipeline { id: 1 }));
    assert_eq!(cache.process_queue(), vec![]);
}

#[test]
fn what_happens_to_a_source_is_taken_note_of() {
    let (mut cache, id) = cache_with_a_pipeline();
    // A source that is announced but not there changes nothing.
    assert_eq!(cache.extract_shader(ShaderEvent::Added, "main", None), Vec::<String>::new());
    assert_eq!(cache.prepare(id), Err(PipelineCacheError::ShaderNotLoaded));
    assert_eq!(cache.extract_shader(ShaderEvent::Added, "main", Some(shader("main.wgsl", vec![]))), vec!["main"]);
    assert_eq!(cache.prepare(id), Ok(()));
    cache.complete(id, CachedPipelineState::Ready(ComputePipeline { id: 1 }));
    assert_eq!(
        cache.extract_shader(ShaderEvent::Unused, "main", Some(shader("main.wgsl", vec![]))),
        Vec::<String>::new()
    );
    assert_eq!(cache.get_compute_pipeline(id), Some(ComputePipeline { id: 1 }));
    assert_eq!(
        cache.extract_shader(ShaderEvent::Modified, "main", Some(shader("main.wgsl", vec![]))),
        vec!["main"]
    );
    assert_eq!(cache.get_compute_pipeline(id), None);
    cache.complete(id, CachedPipelineState::Ready(ComputePipeline { id: 2 }));
    assert_eq!(
        cache.extract_shader(
            ShaderEvent::LoadedWithDependencies,
            "main",
            Some(shader("main.wgsl", vec![asset("lib.wgsl")]))
        ),
        vec!["main"]
    );
    assert_eq!(cache.prepare(id), Err(PipelineCacheError::ShaderImportNotYetAvailable));
    assert_eq!(cache.extract_shader(ShaderEvent::Removed, "main", None), vec!["main"]);
    assert_eq!(cache.prepare(id), Err(PipelineCacheError::ShaderNotLoaded));
}
