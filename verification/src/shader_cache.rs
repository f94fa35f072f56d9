//! Which shader imports which: the bookkeeping behind the question whether
//! a shader can be compiled, and which shaders a change of one shader reaches.
use crate::pipeline_cache::PipelineCacheError;
use crate::step::names_view;
use crate::table::{NameMap, Table};
use vstd::prelude::*;

verus! {

/// How a shader names what it imports, or is imported as.
#[derive(Debug)]
pub enum ShaderImport {
    /// By the path of the asset that holds the source.
    AssetPath(String),
    /// By a name that the source gives itself.
    Custom(String),
}

/// The mathematical content of a [`ShaderImport`].
pub enum ShaderImportView {
    AssetPath(Seq<char>),
    Custom(Seq<char>),
}

impl View for ShaderImport {
    type V = ShaderImportView;

    open spec fn view(&self) -> ShaderImportView {
        match self {
            ShaderImport::AssetPath(path) => ShaderImportView::AssetPath(path@),
            ShaderImport::Custom(name) => ShaderImportView::Custom(name@),
        }
    }
}

impl ShaderImportView {
    /// The name under which the cache files the import: the path or the
    /// name, behind a letter that tells the two kinds apart.
    pub open spec fn key(self) -> Seq<char> {
        match self {
            ShaderImportView::AssetPath(path) => seq!['a'] + path,
            ShaderImportView::Custom(name) => seq!['c'] + name,
        }
    }
}

impl ShaderImport {
    /// The name under which the cache files the import.
    pub fn key(&self) -> (key: String)
        ensures
            key@ == self@.key(),
    {
        match self {
            ShaderImport::AssetPath(path) => {
                proof {
                    reveal_strlit("a");
                }
                let key = String::from_str("a").concat(path.as_str());
                assert(key@ =~= seq!['a'] + path@);
                key
            },
            ShaderImport::Custom(name) => {
                proof {
                    reveal_strlit("c");
                }
                let key = String::from_str("c").concat(name.as_str());
                assert(key@ =~= seq!['c'] + name@);
                key
            },
        }
    }

    /// A copy of the import.
    pub fn duplicate(&self) -> (copy: ShaderImport)
        ensures
            copy@ == self@,
    {
        match self {
            ShaderImport::AssetPath(path) => ShaderImport::AssetPath(path.clone()),
            ShaderImport::Custom(name) => ShaderImport::Custom(name.clone()),
        }
    }
}

/// What the cache reads of a shader: the name under which others import
/// it, and what it imports itself.
#[derive(Debug)]
pub struct Shader {
    pub import_path: ShaderImport,
    pub imports: Vec<ShaderImport>,
}

/// The mathematical content of a [`Shader`].
pub struct ShaderView {
    pub import_path: ShaderImportView,
    pub imports: Seq<ShaderImportView>,
}

/// The contents of a list of imports.
pub open spec fn imports_view(imports: Seq<ShaderImport>) -> Seq<ShaderImportView> {
    imports.map_values(|import: ShaderImport| import@)
}

impl View for Shader {
    type V = ShaderView;

    open spec fn view(&self) -> ShaderView {
        ShaderView { import_path: self.import_path@, imports: imports_view(self.imports@) }
    }
}

/// How many of `imports` go by an asset path, counting one that occurs
/// twice as two.
pub open spec fn asset_imports(imports: Seq<ShaderImportView>) -> nat {
    imports.filter(|import: ShaderImportView| import is AssetPath).len()
}

/// The list filed under `key`: none where the table has no such name.
pub open spec fn listed(lists: Table<Seq<Seq<char>>>, key: Seq<char>) -> Seq<Seq<char>> {
    match lists.get(key) {
        Some(list) => list,
        None => Seq::empty(),
    }
}

/// The lists with `value` among those filed under `key`, once.
pub open spec fn with_added(lists: Table<Seq<Seq<char>>>, key: Seq<char>, value: Seq<char>) -> Table<
    Seq<Seq<char>>,
> {
    let list = listed(lists, key);
    lists.insert(
        key,
        if list.contains(value) {
            list
        } else {
            list.push(value)
        },
    )
}

/// The lists with `value` at the end of those filed under `key`.
pub open spec fn with_pushed(lists: Table<Seq<Seq<char>>>, key: Seq<char>, value: Seq<char>) -> Table<
    Seq<Seq<char>>,
> {
    lists.insert(key, listed(lists, key).push(value))
}

/// The contents of a table of lists of names.
pub open spec fn lists_view(lists: Table<Vec<String>>) -> Table<Seq<Seq<char>>> {
    lists.mapped(|list: Vec<String>| names_view(list@))
}

/// The contents of a table of names.
pub open spec fn names_table_view(names: Table<String>) -> Table<Seq<char>> {
    names.mapped(|name: String| name@)
}

/// The contents of a table of shaders.
pub open spec fn shaders_view(shaders: Table<Shader>) -> Table<ShaderView> {
    shaders.mapped(|shader: Shader| shader@)
}

/// Whether `list` holds `name`.
pub fn contains_name(list: &Vec<String>, name: &str) -> (found: bool)
    ensures
        found == names_view(list@).contains(name@),
{
    let wanted = name.to_owned();
    let mut i: usize = 0;
    while i < list.len()
        invariant
            i <= list.len(),
            wanted@ == name@,
            forall|j: int| 0 <= j < i ==> names_view(list@)[j] != name@,
        decreases list.len() - i,
    {
        if list[i] == wanted {
            assert(names_view(list@)[i as int] == name@);
            return true;
        }
        i = i + 1;
    }
    false
}

/// Files `value` under `key`: at the end of the list, or, with `once`,
/// only if the list does not hold it yet.
pub fn file(lists: &mut NameMap<Vec<String>>, key: &str, value: &str, once: bool)
    requires
        old(lists).wf(),
    ensures
        final(lists).wf(),
        lists_view(final(lists)@) == if once {
            with_added(lists_view(old(lists)@), key@, value@)
        } else {
            with_pushed(lists_view(old(lists)@), key@, value@)
        },
{
    let ghost shown = |list: Vec<String>| names_view(list@);
    let ghost before = lists@;
    proof {
        before.lemma_mapped(shown, key@);
    }
    match lists.position(key) {
        Some(i) => {
            let list = lists.value_mut(i);
            let ghost held = list@;
            if !once || !contains_name(list, value) {
                list.push(value.to_owned());
                assert(names_view(list@) =~= names_view(held).push(value@));
            }
            assert(lists_view(lists@).values =~= (if once {
                with_added(lists_view(before), key@, value@)
            } else {
                with_pushed(lists_view(before), key@, value@)
            }).values);
        },
        None => {
            let mut list: Vec<String> = Vec::new();
            list.push(value.to_owned());
            assert(names_view(list@) =~= Seq::<Seq<char>>::empty().push(value@));
            proof {
                before.lemma_mapped_changes(shown, key@, list);
            }
            lists.insert(key, list);
        },
    }
}

/// The list filed under `key`, copied.
pub fn filed(lists: &NameMap<Vec<String>>, key: &str) -> (list: Vec<String>)
    requires
        lists.wf(),
    ensures
        names_view(list@) == listed(lists_view(lists@), key@),
{
    let ghost shown = |list: Vec<String>| names_view(list@);
    proof {
        lists@.lemma_mapped(shown, key@);
    }
    match lists.get(key) {
        Some(list) => crate::step::copy_names(list),
        None => {
            let list: Vec<String> = Vec::new();
            assert(names_view(list@) =~= Seq::<Seq<char>>::empty());
            list
        },
    }
}

/// The mathematical content of a [`ShaderCache`].
pub struct ShaderCacheView {
    /// The shaders whose source is there, by their names.
    pub shaders: Table<ShaderView>,
    /// The shader that provides each import, by the key of the import.
    pub import_path_shaders: Table<Seq<char>>,
    /// The shaders that wait for an import to be provided, by the key of
    /// the import.
    pub waiting_on_import: Table<Seq<Seq<char>>>,
    /// The asset imports of each shader that have been provided at some time.
    pub resolved_imports: Table<Seq<Seq<char>>>,
    /// The shaders that import each shader.
    pub dependents: Table<Seq<Seq<char>>>,
}

impl ShaderCacheView {
    /// Every table of the cache is well-formed.
    pub open spec fn wf(self) -> bool {
        &&& self.shaders.wf()
        &&& self.import_path_shaders.wf()
        &&& self.waiting_on_import.wf()
        &&& self.resolved_imports.wf()
        &&& self.dependents.wf()
    }

    /// The cache that knows no shader.
    pub open spec fn empty() -> Self {
        ShaderCacheView {
            shaders: Table::empty(),
            import_path_shaders: Table::empty(),
            waiting_on_import: Table::empty(),
            resolved_imports: Table::empty(),
            dependents: Table::empty(),
        }
    }

    /// The cache after the shader `id`, which provides `import`, was
    /// found to be what the shaders `waiting` from `from` on have waited
    /// for: each has the import resolved, where it goes by an asset path,
    /// and is a dependent of `id`.
    pub open spec fn resolve_waiting(
        self,
        id: Seq<char>,
        import: ShaderImportView,
        waiting: Seq<Seq<char>>,
        from: int,
    ) -> Self
        decreases waiting.len() - from,
    {
        if from < 0 || from >= waiting.len() {
            self
        } else {
            ShaderCacheView {
                resolved_imports: match import {
                    ShaderImportView::AssetPath(path) => with_added(
                        self.resolved_imports,
                        waiting[from],
                        path,
                    ),
                    ShaderImportView::Custom(_) => self.resolved_imports,
                },
                dependents: with_added(self.dependents, id, waiting[from]),
                ..self
            }.resolve_waiting(id, import, waiting, from + 1)
        }
    }

    /// The cache after one import of the shader `id` was looked at. An
    /// import that a shader provides is resolved, and `id` is a dependent
    /// of that shader; for any other, `id` waits.
    pub open spec fn resolve_import(self, id: Seq<char>, import: ShaderImportView) -> Self {
        match self.import_path_shaders.get(import.key()) {
            Some(provider) => ShaderCacheView {
                resolved_imports: match import {
                    ShaderImportView::AssetPath(path) => with_added(self.resolved_imports, id, path),
                    ShaderImportView::Custom(_) => self.resolved_imports,
                },
                dependents: with_added(self.dependents, provider, id),
                ..self
            },
            None => ShaderCacheView {
                waiting_on_import: with_pushed(self.waiting_on_import, import.key(), id),
                ..self
            },
        }
    }

    /// The cache after the imports of the shader `id` from `from` on were
    /// looked at, in order.
    pub open spec fn resolve_imports(self, id: Seq<char>, imports: Seq<ShaderImportView>, from: int) -> Self
        decreases imports.len() - from,
    {
        if from < 0 || from >= imports.len() {
            self
        } else {
            self.resolve_import(id, imports[from]).resolve_imports(id, imports, from + 1)
        }
    }

    /// The cache after the source of the shader `id` came, or changed.
    /// The shader provides its import path from now on; those that waited
    /// for it wait no more; and its own imports are resolved as far as
    /// they are provided.
    pub open spec fn set_shader(self, id: Seq<char>, shader: ShaderView) -> Self {
        let key = shader.import_path.key();
        let waiting = listed(self.waiting_on_import, key);
        let provided = ShaderCacheView {
            import_path_shaders: self.import_path_shaders.insert(key, id),
            waiting_on_import: if self.waiting_on_import.contains(key) {
                self.waiting_on_import.insert(key, Seq::empty())
            } else {
                self.waiting_on_import
            },
            ..self
        };
        let imported = provided.resolve_waiting(id, shader.import_path, waiting, 0).resolve_imports(
            id,
            shader.imports,
            0,
        );
        ShaderCacheView { shaders: imported.shaders.insert(id, shader), ..imported }
    }

    /// The cache after the source of the shader `id` went away: the shader
    /// is there no more and provides nothing.
    pub open spec fn remove(self, id: Seq<char>) -> Self {
        match self.shaders.get(id) {
            Some(shader) => ShaderCacheView {
                shaders: self.shaders.remove(id),
                import_path_shaders: self.import_path_shaders.remove(shader.import_path.key()),
                ..self
            },
            None => self,
        }
    }

    /// Whether a pipeline can be compiled from the shader `id` now: its
    /// source has to be there, and as many asset imports have to be
    /// resolved for it as it has.
    pub open spec fn prepare(self, id: Seq<char>) -> Result<(), PipelineCacheError> {
        match self.shaders.get(id) {
            None => Err(PipelineCacheError::ShaderNotLoaded),
            Some(shader) => {
                if asset_imports(shader.imports) != listed(self.resolved_imports, id).len() {
                    Err(PipelineCacheError::ShaderImportNotYetAvailable)
                } else {
                    Ok(())
                }
            },
        }
    }

    /// Whether the shader `to` imports the shader `from`.
    pub open spec fn imported_by(self, from: Seq<char>, to: Seq<char>) -> bool {
        listed(self.dependents, from).contains(to)
    }

    /// Whether `path` leads from the shader `from` to the shader `to`,
    /// each shader on it importing the one before.
    pub open spec fn leads(self, path: Seq<Seq<char>>, from: Seq<char>, to: Seq<char>) -> bool {
        &&& path.len() > 0
        &&& path.first() == from
        &&& path.last() == to
        &&& forall|i: int| 0 <= i < path.len() - 1 ==> self.imported_by(#[trigger] path[i], path[i + 1])
    }

    /// Whether a change of the shader `from` reaches the shader `to`: `to`
    /// is `from`, or imports a shader that the change reaches.
    pub open spec fn reaches(self, from: Seq<char>, to: Seq<char>) -> bool {
        exists|path: Seq<Seq<char>>| self.leads(path, from, to)
    }

    /// Every shader that could ever be reached from `from`: `from` itself
    /// and whatever is filed as a dependent.
    pub open spec fn candidates(self, from: Seq<char>) -> Seq<Seq<char>> {
        seq![from] + self.dependents.values.flatten()
    }

    /// A set of shaders that holds `from` and, with every shader, those
    /// that import it, holds every shader on a path from `from`.
    pub proof fn lemma_closed_set_holds_all(
        self,
        path: Seq<Seq<char>>,
        from: Seq<char>,
        to: Seq<char>,
        closed: Set<Seq<char>>,
        upto: int,
    )
        requires
            closed.contains(from),
            forall|a: Seq<char>, b: Seq<char>|
                closed.contains(a) && self.imported_by(a, b) ==> closed.contains(b),
            self.leads(path, from, to),
            0 <= upto < path.len(),
        ensures
            closed.contains(path[upto]),
        decreases upto,
    {
        if upto > 0 {
            self.lemma_closed_set_holds_all(path, from, to, closed, upto - 1);
            assert(self.imported_by(path[upto - 1], path[upto - 1 + 1]));
        }
    }

    /// Whoever imports a shader that a change reaches is reached by it.
    pub proof fn lemma_reaches_on(self, from: Seq<char>, mid: Seq<char>, to: Seq<char>)
        requires
            self.reaches(from, mid),
            self.imported_by(mid, to),
        ensures
            self.reaches(from, to),
    {
        let path = choose|path: Seq<Seq<char>>| self.leads(path, from, mid);
        let longer = path.push(to);
        assert forall|i: int| 0 <= i < longer.len() - 1 implies self.imported_by(
            #[trigger] longer[i],
            longer[i + 1],
        ) by {
            if i < path.len() - 1 {
                assert(self.imported_by(path[i], path[i + 1]));
            }
        }
        assert(self.leads(longer, from, to));
    }

    /// A shader that imports another is among the candidates.
    pub proof fn lemma_candidates(self, from: Seq<char>, a: Seq<char>, b: Seq<char>)
        requires
            self.wf(),
            self.imported_by(a, b),
        ensures
            self.candidates(from).contains(b),
    {
        let position = self.dependents.index_of(a);
        let list = self.dependents.values[position];
        let place = list.index_of(b);
        lemma_flatten_holds(self.dependents.values, position, place);
        let flat = self.dependents.values.flatten();
        let at = flat.index_of(b);
        assert(self.candidates(from)[at + 1] == b);
    }
}

/// What a list of lists holds, the flattened list holds.
pub proof fn lemma_flatten_holds<A>(lists: Seq<Seq<A>>, i: int, j: int)
    requires
        0 <= i < lists.len(),
        0 <= j < lists[i].len(),
    ensures
        lists.flatten().contains(lists[i][j]),
    decreases lists.len(),
{
    if i == 0 {
        assert(lists.flatten()[j] == lists[i][j]);
    } else {
        lemma_flatten_holds(lists.drop_first(), i - 1, j);
        let rest = lists.drop_first().flatten();
        let at = rest.index_of(lists[i][j]);
        assert(lists.flatten()[lists.first().len() + at] == lists[i][j]);
    }
}

/// A list without repetitions, all of whose items a second list holds, is
/// no longer than the second.
pub proof fn lemma_no_longer<A>(short: Seq<A>, long: Seq<A>)
    requires
        short.no_duplicates(),
        forall|i: int| 0 <= i < short.len() ==> long.contains(#[trigger] short[i]),
    ensures
        short.len() <= long.len(),
{
    broadcast use {vstd::seq_lib::seq_to_set_is_finite, vstd::seq_lib::group_seq_properties};

    short.unique_seq_to_set();
    long.lemma_cardinality_of_set();
    assert(short.to_set().subset_of(long.to_set())) by {
        assert forall|item: A| short.to_set().contains(item) implies long.to_set().contains(item) by {
            let i = short.index_of(item);
            assert(long.contains(short[i]));
        }
    }
    vstd::set_lib::lemma_len_subset(short.to_set(), long.to_set());
}

/// Which shader provides which import, which shaders wait for an import,
/// and which shaders import which.
pub struct ShaderCache {
    shaders: NameMap<Shader>,
    import_path_shaders: NameMap<String>,
    waiting_on_import: NameMap<Vec<String>>,
    resolved_imports: NameMap<Vec<String>>,
    dependents: NameMap<Vec<String>>,
}

impl View for ShaderCache {
    type V = ShaderCacheView;

    closed spec fn view(&self) -> ShaderCacheView {
        ShaderCacheView {
            shaders: shaders_view(self.shaders@),
            import_path_shaders: names_table_view(self.import_path_shaders@),
            waiting_on_import: lists_view(self.waiting_on_import@),
            resolved_imports: lists_view(self.resolved_imports@),
            dependents: lists_view(self.dependents@),
        }
    }
}

impl ShaderCache {
    /// Every table of the cache is well-formed.
    pub open spec fn wf(&self) -> bool {
        self@.wf()
    }

    proof fn lemma_tables(&self)
        requires
            self.wf(),
        ensures
            self.shaders.wf(),
            self.import_path_shaders.wf(),
            self.waiting_on_import.wf(),
            self.resolved_imports.wf(),
            self.dependents.wf(),
    {
    }

    /// A cache that knows no shader.
    pub fn new() -> (cache: Self)
        ensures
            cache.wf(),
            cache@ == ShaderCacheView::empty(),
    {
        let cache = ShaderCache {
            shaders: NameMap::new(),
            import_path_shaders: NameMap::new(),
            waiting_on_import: NameMap::new(),
            resolved_imports: NameMap::new(),
            dependents: NameMap::new(),
        };
        assert(cache@.shaders.values =~= Seq::empty());
        assert(cache@.import_path_shaders.values =~= Seq::empty());
        assert(cache@.waiting_on_import.values =~= Seq::empty());
        assert(cache@.resolved_imports.values =~= Seq::empty());
        assert(cache@.dependents.values =~= Seq::empty());
        cache
    }

    /// Records that the shader `waiting` has waited for `import`, which
    /// the shader `id` provides.
    fn resolve_one_waiting(&mut self, id: &str, import: &ShaderImport, waiting: &str)
        requires
            old(self).wf(),
        ensures
            final(self).wf(),
            final(self)@ == old(self)@.resolve_waiting(id@, import@, seq![waiting@], 0),
    {
        proof {
            self.lemma_tables();
        }
        match import {
            ShaderImport::AssetPath(path) => {
                file(&mut self.resolved_imports, waiting, path.as_str(), true);
            },
            ShaderImport::Custom(_) => {},
        }
        file(&mut self.dependents, id, waiting, true);
        proof {
            reveal_with_fuel(ShaderCacheView::resolve_waiting, 3);
        }
    }

    /// Looks at one import of the shader `id`.
    fn resolve_import(&mut self, id: &str, import: &ShaderImport)
        requires
            old(self).wf(),
        ensures
            final(self).wf(),
            final(self)@ == old(self)@.resolve_import(id@, import@),
    {
        proof {
            self.lemma_tables();
            self.import_path_shaders@.lemma_mapped(|name: String| name@, import@.key());
        }
        let key = import.key();
        match self.import_path_shaders.get(key.as_str()) {
            Some(provider) => {
                let provider = provider.clone();
                match import {
                    ShaderImport::AssetPath(path) => {
                        file(&mut self.resolved_imports, id, path.as_str(), true);
                    },
                    ShaderImport::Custom(_) => {},
                }
                file(&mut self.dependents, provider.as_str(), id, true);
            },
            None => {
                file(&mut self.waiting_on_import, key.as_str(), id, false);
            },
        }
    }

    /// Takes in the source of the shader `id`, new or changed. The shader
    /// provides its import path from now on; those that waited for it wait
    /// no more; and its own imports are resolved as far as they are provided.
    pub fn set_shader(&mut self, id: &str, shader: Shader)
        requires
            old(self).wf(),
        ensures
            final(self).wf(),
            final(self)@ == old(self)@.set_shader(id@, shader@),
    {
        proof {
            self.lemma_tables();
        }
        let ghost before = self@;
        let key = shader.import_path.key();
        let waiting = filed(&self.waiting_on_import, key.as_str());
        let provider = id.to_owned();
        proof {
            self.import_path_shaders@.lemma_mapped_changes(|name: String| name@, key@, provider);
            self.waiting_on_import@.lemma_mapped(|list: Vec<String>| names_view(list@), key@);
        }
        self.import_path_shaders.insert(key.as_str(), provider);
        match self.waiting_on_import.position(key.as_str()) {
            Some(place) => {
                let emptied: Vec<String> = Vec::new();
                proof {
                    assert(names_view(emptied@) =~= Seq::<Seq<char>>::empty());
                    self.waiting_on_import@.lemma_mapped_changes(
                        |list: Vec<String>| names_view(list@),
                        key@,
                        emptied,
                    );
                }
                self.waiting_on_import.insert(key.as_str(), emptied);
            },
            None => {},
        }
        let ghost provided = self@;
        let ghost names = names_view(waiting@);
        let mut i: usize = 0;
        while i < waiting.len()
            invariant
                self.wf(),
                i <= waiting.len(),
                names == names_view(waiting@),
                self@.resolve_waiting(id@, shader.import_path@, names, i as int) == provided.resolve_waiting(
                    id@,
                    shader.import_path@,
                    names,
                    0,
                ),
            decreases waiting.len() - i,
        {
            let ghost current = self@;
            self.resolve_one_waiting(id, &shader.import_path, waiting[i].as_str());
            proof {
                reveal_with_fuel(ShaderCacheView::resolve_waiting, 3);
                assert(names[i as int] == waiting[i as int]@);
            }
            i = i + 1;
        }
        let ghost resolved = self@;
        let ghost imports = imports_view(shader.imports@);
        let mut k: usize = 0;
        while k < shader.imports.len()
            invariant
                self.wf(),
                k <= shader.imports.len(),
                imports == imports_view(shader.imports@),
                self@.resolve_imports(id@, imports, k as int) == resolved.resolve_imports(id@, imports, 0),
            decreases shader.imports.len() - k,
        {
            self.resolve_import(id, &shader.imports[k]);
            k = k + 1;
        }
        proof {
            self.lemma_tables();
            self.shaders@.lemma_mapped_changes(|shader: Shader| shader@, id@, shader);
        }
        self.shaders.insert(id, shader);
    }

    /// Forgets the source of the shader `id`: the shader is there no more
    /// and provides nothing.
    pub fn remove(&mut self, id: &str)
        requires
            old(self).wf(),
        ensures
            final(self).wf(),
            final(self)@ == old(self)@.remove(id@),
    {
        proof {
            self.lemma_tables();
            self.shaders@.lemma_mapped(|shader: Shader| shader@, id@);
            self.shaders@.lemma_remove(id@);
        }
        let ghost held = self.shaders@;
        match self.shaders.remove(id) {
            Some(shader) => {
                let key = shader.import_path.key();
                proof {
                    held.lemma_mapped_changes(|shader: Shader| shader@, id@, shader);
                    self.import_path_shaders@.lemma_remove(key@);
                    self.import_path_shaders@.lemma_mapped_changes(
                        |name: String| name@,
                        key@,
                        key,
                    );
                }
                let _ = self.import_path_shaders.remove(key.as_str());
            },
            None => {},
        }
    }

    /// The shader that provides `import`, if there is one.
    pub fn provider(&self, import: &ShaderImport) -> (provider: Option<&String>)
        requires
            self.wf(),
        ensures
            match provider {
                Some(name) => self@.import_path_shaders.get(import@.key()) == Some(name@),
                None => self@.import_path_shaders.get(import@.key()) is None,
            },
    {
        proof {
            self.lemma_tables();
            self.import_path_shaders@.lemma_mapped(|name: String| name@, import@.key());
        }
        let key = import.key();
        self.import_path_shaders.get(key.as_str())
    }

    /// Whether a pipeline can be compiled from the shader `id` now.
    pub fn prepare(&self, id: &str) -> (outcome: Result<(), PipelineCacheError>)
        requires
            self.wf(),
        ensures
            outcome == self@.prepare(id@),
    {
        proof {
            self.lemma_tables();
            self.shaders@.lemma_mapped(|shader: Shader| shader@, id@);
            self.resolved_imports@.lemma_mapped(|list: Vec<String>| names_view(list@), id@);
        }
        let shader = match self.shaders.get(id) {
            Some(shader) => shader,
            None => {
                return Err(PipelineCacheError::ShaderNotLoaded);
            },
        };
        let ghost imports = imports_view(shader.imports@);
        let ghost by_path = |import: ShaderImportView| import is AssetPath;
        let mut n_asset_imports: usize = 0;
        let mut i: usize = 0;
        while i < shader.imports.len()
            invariant
                i <= shader.imports.len(),
                imports == imports_view(shader.imports@),
                by_path == (|import: ShaderImportView| import is AssetPath),
                n_asset_imports == imports.take(i as int).filter(by_path).len(),
                n_asset_imports <= i,
            decreases shader.imports.len() - i,
        {
            proof {
                assert(imports.take(i + 1).drop_last() =~= imports.take(i as int));
                assert(imports.take(i + 1).last() == shader.imports@[i as int]@);
                reveal(Seq::filter);
            }
            match shader.imports[i] {
                ShaderImport::AssetPath(_) => {
                    n_asset_imports = n_asset_imports + 1;
                },
                ShaderImport::Custom(_) => {},
            }
            i = i + 1;
        }
        assert(imports.take(i as int) =~= imports);
        let n_resolved_asset_imports = match self.resolved_imports.get(id) {
            Some(list) => list.len(),
            None => 0,
        };
        if n_asset_imports != n_resolved_asset_imports {
            return Err(PipelineCacheError::ShaderImportNotYetAvailable);
        }
        Ok(())
    }

    /// The shaders that a change of the shader `id` reaches: `id` itself
    /// and, following the imports, every shader that imports one of them.
    /// Each is named once, however the imports run, be it in a circle.
    pub fn clear(&self, id: &str) -> (reached: Vec<String>)
        requires
            self.wf(),
        ensures
            names_view(reached@).no_duplicates(),
            forall|shader: Seq<char>| names_view(reached@).contains(shader) <==> self@.reaches(id@, shader),
    {
        proof {
            self.lemma_tables();
        }
        let ghost cache = self@;
        let ghost candidates = cache.candidates(id@);
        let mut reached: Vec<String> = Vec::new();
        reached.push(id.to_owned());
        proof {
            assert(names_view(reached@) =~= seq![id@]);
            assert(cache.leads(seq![id@], id@, id@));
            assert(candidates[0] == id@);
        }
        let mut i: usize = 0;
        while i < reached.len()
            invariant
                self.wf(),
                cache == self@,
                candidates == cache.candidates(id@),
                i <= reached.len(),
                reached.len() >= 1,
                names_view(reached@)[0] == id@,
                names_view(reached@).no_duplicates(),
                forall|j: int|
                    0 <= j < reached.len() ==> cache.reaches(id@, #[trigger] names_view(reached@)[j]),
                forall|j: int|
                    0 <= j < reached.len() ==> candidates.contains(#[trigger] names_view(reached@)[j]),
                forall|j: int, shader: Seq<char>|
                    0 <= j < i && cache.imported_by(#[trigger] names_view(reached@)[j], shader)
                        ==> #[trigger] names_view(reached@).contains(shader),
            decreases candidates.len() - i,
        {
            proof {
                lemma_no_longer(names_view(reached@), candidates);
            }
            let importers = filed(&self.dependents, reached[i].as_str());
            let ghost from = names_view(reached@)[i as int];
            let ghost held = names_view(reached@);
            let mut k: usize = 0;
            while k < importers.len()
                invariant
                    self.wf(),
                    cache == self@,
                    candidates == cache.candidates(id@),
                    i < reached.len(),
                    k <= importers.len(),
                    from == names_view(reached@)[i as int],
                    names_view(importers@) == listed(cache.dependents, from),
                    names_view(reached@)[0] == id@,
                    names_view(reached@).no_duplicates(),
                    held.len() <= reached.len(),
                    forall|j: int| 0 <= j < held.len() ==> names_view(reached@)[j] == held[j],
                    forall|j: int|
                        0 <= j < reached.len() ==> cache.reaches(id@, #[trigger] names_view(reached@)[j]),
                    forall|j: int|
                        0 <= j < reached.len() ==> candidates.contains(
                            #[trigger] names_view(reached@)[j],
                        ),
                    forall|j: int|
                        0 <= j < k ==> names_view(reached@).contains(#[trigger] names_view(importers@)[j]),
                decreases importers.len() - k,
            {
                let ghost importer = names_view(importers@)[k as int];
                proof {
                    assert(importer == importers@[k as int]@);
                    assert(cache.imported_by(from, importer));
                    cache.lemma_reaches_on(id@, from, importer);
                    cache.lemma_candidates(id@, from, importer);
                }
                if !contains_name(&reached, importers[k].as_str()) {
                    let ghost earlier = names_view(reached@);
                    reached.push(importers[k].clone());
                    proof {
                        assert(names_view(reached@) =~= earlier.push(importer));
                        assert forall|j: int| 0 <= j < k implies names_view(reached@).contains(
                            #[trigger] names_view(importers@)[j],
                        ) by {
                            let at = earlier.index_of(names_view(importers@)[j]);
                            assert(names_view(reached@)[at] == names_view(importers@)[j]);
                        }
                        assert(names_view(reached@)[earlier.len() as int] == importer);
                    }
                }
                k = k + 1;
            }
            proof {
                let now = names_view(reached@);
                assert forall|j: int, shader: Seq<char>|
                    0 <= j < i + 1 && cache.imported_by(#[trigger] now[j], shader) implies #[trigger] now.contains(
                    shader,
                ) by {
                    if j < i {
                        assert(now[j] == held[j]);
                        assert(held.contains(shader));
                        let at = held.index_of(shader);
                        assert(now[at] == shader);
                    } else {
                        let at = names_view(importers@).index_of(shader);
                        assert(now.contains(names_view(importers@)[at]));
                    }
                }
            }
            i = i + 1;
        }
        proof {
            let now = names_view(reached@);
            assert forall|shader: Seq<char>| now.contains(shader) <==> cache.reaches(id@, shader) by {
                if now.contains(shader) {
                    let at = now.index_of(shader);
                    assert(cache.reaches(id@, now[at]));
                }
                if cache.reaches(id@, shader) {
                    let path = choose|path: Seq<Seq<char>>| cache.leads(path, id@, shader);
                    let closed = now.to_set();
                    assert(closed.contains(now[0]));
                    assert forall|a: Seq<char>, b: Seq<char>|
                        closed.contains(a) && cache.imported_by(a, b) implies closed.contains(b) by {
                        let at = now.index_of(a);
                        assert(cache.imported_by(now[at], b));
                    }
                    cache.lemma_closed_set_holds_all(path, id@, shader, closed, path.len() - 1);
                }
            }
        }
        reached
    }
}

} // verus!
