//! The compiled-program model and the reload coordinator. The graphics
//! context itself lives in the host program, which hands in the compiled
//! program handle, uniform locations and file times; everything decided
//! here — which uploads a use owes, how a reload splices state, when a
//! watched file counts as changed — is verified state bookkeeping.

use vstd::prelude::*;

use crate::color::Colorize;
use crate::logger::HTMLLogger;
use crate::preprocess::{MergedUnit, TranspiledUniform};
use crate::text::str_eq;
use crate::uniforms::{
    all_clean, carry_notes, reflect_spec, spliced_slots, table_wf, uploads_of, CarryNote,
    ReflectError, ReflectResult, SlotModel, UniformError, UniformTable, UniformValue,
    UploadCommand,
};
use crate::watch::{observed, FileWatcher, WatchError, WatchModel};

verus! {

/// Marker for the two kinds of program this engine builds.
pub trait ShaderType {}

/// A compute program, built from one compute source file.
pub struct ComputeShader {
    pub compute_file: String,
}

/// A graphics program, built from a vertex and a fragment source file.
pub struct GraphicsShader {
    pub vertex_file: String,
    pub fragment_file: String,
}

impl ShaderType for ComputeShader {}

impl ShaderType for GraphicsShader {}

/// One compiled shader stage: the handle the host compiler returned and the
/// merged unit it was compiled from.
#[derive(Debug)]
pub struct Shader {
    pub id: u32,
    pub data: MergedUnit,
}

/// The declarations of a list of stages, in stage order then source order.
pub open spec fn stage_decls(ss: Seq<Shader>) -> Seq<(Seq<char>, Seq<char>)>
    decreases ss.len(),
{
    if ss.len() == 0 {
        Seq::empty()
    } else {
        stage_decls(ss.drop_last()) + ss.last().data@.uniforms
    }
}

/// First index at which an observation reports a missing file, or the
/// length.
pub open spec fn first_none(obs: Seq<Option<u64>>, i: int) -> int
    decreases obs.len() - i,
{
    if i < 0 || i >= obs.len() {
        obs.len() as int
    } else if obs[i] is None {
        i
    } else {
        first_none(obs, i + 1)
    }
}

/// The watches after a poll that applied the first `upto` observations.
pub open spec fn polled(ws: Seq<WatchModel>, obs: Seq<Option<u64>>, upto: int) -> Seq<
    WatchModel,
> {
    Seq::new(
        ws.len(),
        |k: int|
            if k < upto {
                observed(ws[k], obs[k]->0)
            } else {
                ws[k]
            },
    )
}

/// Whether any of the first `upto` observations is strictly newer than what
/// its watch had seen.
pub open spec fn any_changed(ws: Seq<WatchModel>, obs: Seq<Option<u64>>, upto: int) -> bool {
    exists|k: int| 0 <= k < upto && (obs[k]->0 > (#[trigger] ws[k]).last_modified)
}

/// What a successful reload asks the host program to do, and what it should
/// know.
#[derive(Debug)]
pub struct ReloadEffects {
    /// The replaced program handle; the host deletes it now that the splice
    /// is complete.
    pub retired_program: u32,
    /// The forced upload pass over the spliced table: the host binds the new
    /// program, performs these, and unbinds.
    pub uploads: Vec<UploadCommand>,
    /// The names whose state did not carry over.
    pub notes: Vec<CarryNote>,
}

/// How a reload attempt ended.
#[derive(Debug)]
pub enum ReloadOutcome {
    Success(ReloadEffects),
    Failed(String),
}

/// A running shader program: its handle, its stages, its uniform table and
/// image bindings, and one watch per file that contributed to it.
pub struct ShaderProgram<ST> {
    name: String,
    type_data: ST,
    pub id: u32,
    using: bool,
    shaders: Vec<Shader>,
    uniforms: UniformTable,
    images: Vec<(String, i32)>,
    watchers: Vec<FileWatcher>,
}

impl<ST: ShaderType> ShaderProgram<ST> {
    pub closed spec fn spec_name(&self) -> Seq<char> {
        self.name@
    }

    pub closed spec fn spec_id(&self) -> u32 {
        self.id
    }

    pub closed spec fn spec_using(&self) -> bool {
        self.using
    }

    pub closed spec fn spec_table(&self) -> Seq<SlotModel> {
        self.uniforms@
    }

    pub closed spec fn spec_shaders(&self) -> Seq<Shader> {
        self.shaders@
    }

    pub closed spec fn spec_watchers(&self) -> Seq<WatchModel> {
        self.watchers@.map_values(|w: FileWatcher| w@)
    }

    pub closed spec fn spec_images(&self) -> Seq<(Seq<char>, i32)> {
        self.images@.map_values(|p: (String, i32)| (p.0@, p.1))
    }

    pub open spec fn wf(&self) -> bool {
        table_wf(self.spec_table())
    }

    /// Assembles a program the host has just linked: reflects the stages'
    /// declarations into a fresh uniform table and image-name list, and files
    /// the watches the host created for the contributing files. Fails on a
    /// declaration whose type is outside the closed set.
    #[verifier::loop_isolation(false)]
    pub fn new(
        name: &str,
        type_data: ST,
        id: u32,
        shaders: Vec<Shader>,
        watchers: Vec<FileWatcher>,
    ) -> (r: Result<(ShaderProgram<ST>, Vec<String>), ReflectError>)
        ensures
            match r {
                Ok(p) => {
                    &&& reflect_spec(stage_decls(shaders@)) == ReflectResult::Built(
                        p.0.spec_table(),
                        p.1@.map_values(|n: String| n@),
                    )
                    &&& p.0.wf()
                    &&& p.0.spec_id() == id
                    &&& !p.0.spec_using()
                    &&& p.0.spec_name() == name@
                    &&& p.0.spec_shaders() == shaders@
                    &&& p.0.spec_watchers() == watchers@.map_values(|w: FileWatcher| w@)
                    &&& p.0.spec_images() == Seq::<(Seq<char>, i32)>::empty()
                },
                Err(ReflectError::UnknownUniformType(ty)) => reflect_spec(stage_decls(shaders@))
                    == ReflectResult::Unknown(ty@),
            },
    {
        let mut decls: Vec<TranspiledUniform> = Vec::new();
        let mut i: usize = 0;
        while i < shaders.len()
            invariant
                i <= shaders@.len(),
                decls@.map_values(|d: TranspiledUniform| (d.name@, d.ty@)) =~= stage_decls(
                    shaders@.take(i as int),
                ),
            decreases shaders@.len() - i,
        {
            proof {
                assert(shaders@.take(i + 1).drop_last() =~= shaders@.take(i as int));
                assert(shaders@.take(i + 1).last() == shaders@[i as int]);
            }
            let ghost prev = decls@.map_values(|d: TranspiledUniform| (d.name@, d.ty@));
            let unit = &shaders[i].data;
            let mut k: usize = 0;
            while k < unit.uniforms.len()
                invariant
                    k <= unit.uniforms@.len(),
                    *unit == shaders@[i as int].data,
                    i < shaders@.len(),
                    decls@.map_values(|d: TranspiledUniform| (d.name@, d.ty@)) =~= prev
                        + unit.uniforms@.map_values(|d: TranspiledUniform| (d.name@, d.ty@)).take(
                        k as int,
                    ),
                decreases unit.uniforms@.len() - k,
            {
                let ghost cur = decls@.map_values(|d: TranspiledUniform| (d.name@, d.ty@));
                let d = &unit.uniforms[k];
                decls.push(
                    TranspiledUniform {
                        name: String::from_str(d.name.as_str()),
                        ty: String::from_str(d.ty.as_str()),
                    },
                );
                proof {
                    let inner = unit.uniforms@.map_values(|d: TranspiledUniform| (d.name@, d.ty@));
                    assert(decls@.map_values(|d: TranspiledUniform| (d.name@, d.ty@)) =~= cur.push(
                        (d.name@, d.ty@),
                    ));
                    assert(inner.take(k + 1) =~= inner.take(k as int).push((d.name@, d.ty@)));
                    assert(cur.push((d.name@, d.ty@)) =~= prev + inner.take(k + 1));
                }
                k += 1;
            }
            proof {
                let us = unit.uniforms@.map_values(|d: TranspiledUniform| (d.name@, d.ty@));
                assert(us.take(us.len() as int) =~= us);
                assert(us =~= shaders@[i as int].data@.uniforms);
                assert(prev + shaders@[i as int].data@.uniforms =~= stage_decls(
                    shaders@.take(i + 1),
                ));
            }
            i += 1;
        }
        proof {
            assert(shaders@.take(shaders@.len() as int) =~= shaders@);
        }
        let (uniforms, image_names) = match crate::uniforms::build_table(&decls) {
            Ok(p) => p,
            Err(e) => {
                return Err(e);
            },
        };
        let program = ShaderProgram {
            name: String::from_str(name),
            type_data,
            id,
            using: false,
            shaders,
            uniforms,
            images: Vec::new(),
            watchers,
        };
        proof {
            assert(program.spec_images() =~= Seq::<(Seq<char>, i32)>::empty());
        }
        Ok((program, image_names))
    }

    /// The slot names of the table, in order, for the host to query the
    /// linked program's locations with.
    pub fn uniform_names(&self) -> (r: Vec<String>)
        ensures
            r@.map_values(|n: String| n@) == self.spec_table().map_values(|m: SlotModel| m.name),
    {
        self.uniforms.names()
    }

    /// Files the locations the host queried, one per slot in table order.
    pub fn bind_uniform_locations(&mut self, locations: &Vec<Option<i32>>)
        requires
            old(self).wf(),
            locations@.len() == old(self).spec_table().len(),
        ensures
            final(self).wf(),
            final(self).spec_table() == Seq::new(
                old(self).spec_table().len(),
                |i: int| SlotModel { location: locations@[i], ..old(self).spec_table()[i] },
            ),
            final(self).spec_id() == old(self).spec_id(),
            final(self).spec_using() == old(self).spec_using(),
            final(self).spec_watchers() == old(self).spec_watchers(),
    {
        self.uniforms.bind_locations(locations);
    }

    /// Files the location the host queried for an image binding.
    pub fn add_image(&mut self, name: &str, location: i32)
        ensures
            final(self).spec_images() == old(self).spec_images().push((name@, location)),
            final(self).spec_table() == old(self).spec_table(),
            final(self).spec_id() == old(self).spec_id(),
            final(self).spec_using() == old(self).spec_using(),
    {
        let ghost prev = self.spec_images();
        self.images.push((String::from_str(name), location));
        proof {
            assert(self.spec_images() =~= prev.push((name@, location)));
        }
    }

    /// The location filed for an image binding name, if any.
    #[verifier::loop_isolation(false)]
    pub fn get_image_location(&self, name: &str) -> (r: Option<i32>)
        ensures
            match r {
                Some(loc) => exists|k: int|
                    0 <= k < self.spec_images().len() && #[trigger] self.spec_images()[k] == (
                    name@,
                    loc,
                    ),
                None => forall|k: int|
                    0 <= k < self.spec_images().len() ==> (#[trigger] self.spec_images()[k]).0
                        != name@,
            },
    {
        let mut i: usize = 0;
        while i < self.images.len()
            invariant
                i <= self.images@.len(),
                forall|k: int| 0 <= k < i ==> (#[trigger] self.spec_images()[k]).0 != name@,
            decreases self.images@.len() - i,
        {
            if str_eq(self.images[i].0.as_str(), name) {
                proof {
                    assert(self.spec_images()[i as int] == (name@, self.images@[i as int].1));
                }
                return Some(self.images[i].1);
            }
            i += 1;
        }
        None
    }

    /// The stable index of the named uniform slot, if the table holds it.
    pub fn get_uniform(&self, name: &str) -> (r: Option<usize>)
        ensures
            match r {
                Some(i) => i == crate::uniforms::find_slot(self.spec_table(), name@) && i
                    < self.spec_table().len() && self.spec_table()[i as int].name == name@,
                None => crate::uniforms::find_slot(self.spec_table(), name@)
                    == self.spec_table().len(),
            },
    {
        self.uniforms.get_uniform(name)
    }

    /// The current value under a uniform name.
    pub fn uniform_value(&self, name: &str) -> (r: Option<UniformValue>)
        ensures
            match r {
                Some(v) => crate::uniforms::find_slot(self.spec_table(), name@)
                    < self.spec_table().len() && v == self.spec_table()[crate::uniforms::find_slot(
                    self.spec_table(),
                    name@,
                )].value,
                None => crate::uniforms::find_slot(self.spec_table(), name@)
                    == self.spec_table().len(),
            },
    {
        self.uniforms.value_of(name)
    }

    /// Stores a value under a uniform name; succeeds exactly when the name
    /// exists at the value's type, and then marks that slot dirty.
    pub fn set_uniform(&mut self, name: &str, value: UniformValue) -> (r: Result<
        (),
        UniformError,
    >)
        requires
            old(self).wf(),
        ensures
            final(self).wf(),
            final(self).spec_id() == old(self).spec_id(),
            final(self).spec_using() == old(self).spec_using(),
            ({
                let t = old(self).spec_table();
                let k = crate::uniforms::find_slot(t, name@);
                match r {
                    Ok(()) => {
                        &&& k < t.len()
                        &&& t[k].ty == crate::uniforms::type_of_value(value)
                        &&& final(self).spec_table() == t.update(
                            k,
                            (SlotModel { value, dirty: true, ..t[k] }),
                        )
                    },
                    Err(UniformError::UnknownName) => k == t.len() && final(self).spec_table()
                        == t,
                    Err(UniformError::TypeMismatch) => {
                        &&& k < t.len()
                        &&& t[k].ty != crate::uniforms::type_of_value(value)
                        &&& final(self).spec_table() == t
                    },
                }
            }),
    {
        self.uniforms.set_value(name, value)
    }

    /// One dirty pass over the table: clears every mark and returns the
    /// uploads owed, one per slot that was dirty (or forced) and located.
    pub fn handle_uniforms(&mut self, force: bool) -> (r: Vec<UploadCommand>)
        requires
            old(self).wf(),
        ensures
            final(self).wf(),
            r@ == uploads_of(old(self).spec_table(), force),
            final(self).spec_table() == all_clean(old(self).spec_table()),
            final(self).spec_id() == old(self).spec_id(),
            final(self).spec_using() == old(self).spec_using(),
            final(self).spec_watchers() == old(self).spec_watchers(),
    {
        self.uniforms.take_uploads(force)
    }

    /// Toggles the program in or out of use. Entering use binds the program
    /// and performs a dirty pass; leaving it unbinds and touches nothing.
    /// Returns the handle the host should bind (`0` to unbind) and the
    /// uploads owed.
    pub fn toggle_use(&mut self) -> (r: (u32, Vec<UploadCommand>))
        requires
            old(self).wf(),
        ensures
            final(self).wf(),
            final(self).spec_using() == !old(self).spec_using(),
            final(self).spec_id() == old(self).spec_id(),
            final(self).spec_watchers() == old(self).spec_watchers(),
            if old(self).spec_using() {
                &&& r.0 == 0
                &&& r.1@ == Seq::<UploadCommand>::empty()
                &&& final(self).spec_table() == old(self).spec_table()
            } else {
                &&& r.0 == old(self).spec_id()
                &&& r.1@ == uploads_of(old(self).spec_table(), false)
                &&& final(self).spec_table() == all_clean(old(self).spec_table())
            },
    {
        self.using = !self.using;
        if self.using {
            let uploads = self.uniforms.take_uploads(false);
            (self.id, uploads)
        } else {
            (0, Vec::new())
        }
    }

    /// Forces the program into use without an upload pass; returns the
    /// handle to bind.
    pub fn force_set_use(&mut self) -> (r: u32)
        ensures
            final(self).spec_using(),
            r == old(self).spec_id(),
            final(self).spec_id() == old(self).spec_id(),
            final(self).spec_table() == old(self).spec_table(),
            final(self).spec_watchers() == old(self).spec_watchers(),
    {
        self.using = true;
        self.id
    }

    /// The watched paths, in watch order, for the host to read modification
    /// times for.
    #[verifier::loop_isolation(false)]
    pub fn watch_paths(&self) -> (r: Vec<String>)
        ensures
            r@.map_values(|p: String| p@) == self.spec_watchers().map_values(
                |w: WatchModel| w.path,
            ),
    {
        let mut out: Vec<String> = Vec::new();
        let mut i: usize = 0;
        while i < self.watchers.len()
            invariant
                i <= self.watchers@.len(),
                out@.map_values(|p: String| p@) =~= self.spec_watchers().map_values(
                    |w: WatchModel| w.path,
                ).take(i as int),
            decreases self.watchers@.len() - i,
        {
            out.push(String::from_str(self.watchers[i].path()));
            proof {
                assert(out@.map_values(|p: String| p@) =~= self.spec_watchers().map_values(
                    |w: WatchModel| w.path,
                ).take(i + 1));
            }
            i += 1;
        }
        proof {
            let ps = self.spec_watchers().map_values(|w: WatchModel| w.path);
            assert(ps.take(ps.len() as int) =~= ps);
        }
        out
    }

    /// Applies one observation per watch, in order. Reports whether any
    /// watched file is newer than last seen; stops at the first file that
    /// could not be examined and reports it missing, the watches before it
    /// already updated.
    #[verifier::loop_isolation(false)]
    pub fn check_watchers(&mut self, logger: &mut HTMLLogger, observations: &Vec<Option<u64>>) -> (r:
        Result<bool, WatchError>)
        requires
            old(logger).wf(),
            observations@.len() == old(self).spec_watchers().len(),
        ensures
            final(logger).wf(),
            final(self).spec_table() == old(self).spec_table(),
            final(self).spec_id() == old(self).spec_id(),
            final(self).spec_using() == old(self).spec_using(),
            ({
                let ws = old(self).spec_watchers();
                let obs = observations@;
                let miss = first_none(obs, 0);
                match r {
                    Ok(changed) => {
                        &&& miss == obs.len()
                        &&& changed == any_changed(ws, obs, obs.len() as int)
                        &&& final(self).spec_watchers() == polled(ws, obs, obs.len() as int)
                    },
                    Err(WatchError::WatchTargetMissing(p)) => {
                        &&& miss < obs.len()
                        &&& p@ == ws[miss].path
                        &&& final(self).spec_watchers() == polled(ws, obs, miss)
                    },
                }
            }),
    {
        let ghost ws = self.spec_watchers();
        let ghost obs = observations@;
        let mut changed = false;
        let mut i: usize = 0;
        while i < self.watchers.len()
            invariant
                i <= ws.len(),
                self.watchers@.len() == ws.len(),
                logger.wf(),
                self.uniforms@ == old(self).uniforms@,
                self.id == old(self).id,
                self.using == old(self).using,
                self.images@ == old(self).images@,
                self.shaders@ == old(self).shaders@,
                self.name@ == old(self).name@,
                first_none(obs, 0) == first_none(obs, i as int),
                changed == any_changed(ws, obs, i as int),
                self.spec_watchers() =~= polled(ws, obs, i as int),
            decreases ws.len() - i,
        {
            let ghost snap = self.spec_watchers();
            let ghost prev_changed = changed;
            let res = self.watchers[i].update(observations[i]);
            match res {
                Ok(c) => {
                    if c {
                        let msg = "Update on ".cyan().plus(
                            crate::text::quoted(self.watchers[i].path()).magenta(),
                        );
                        logger.info(msg.as_str());
                        changed = true;
                    }
                    proof {
                        assert(obs[i as int] is Some);
                        assert(first_none(obs, i as int) == first_none(obs, i + 1));
                        assert(snap[i as int] == ws[i as int]);
                        assert forall|j: int|
                            0 <= j < ws.len() implies #[trigger] self.spec_watchers()[j] == polled(
                            ws,
                            obs,
                            i + 1,
                        )[j] by {
                            if j != i {
                                assert(self.spec_watchers()[j] == snap[j]);
                            } else {
                                assert(self.spec_watchers()[j] == observed(snap[j], obs[j]->0));
                            }
                        }
                        assert(self.spec_watchers() =~= polled(ws, obs, i + 1));
                        if c {
                            assert(obs[i as int]->0 > ws[i as int].last_modified);
                            assert(any_changed(ws, obs, i + 1));
                        } else if prev_changed {
                            let k = choose|k: int|
                                0 <= k < i && (obs[k]->0 > (#[trigger] ws[k]).last_modified);
                            assert(0 <= k < i + 1 && obs[k]->0 > ws[k].last_modified);
                        } else {
                            if any_changed(ws, obs, i + 1) {
                                let k = choose|k: int|
                                    0 <= k < i + 1 && (obs[k]->0 > (
                                    #[trigger] ws[k]).last_modified);
                                if k == i {
                                    assert(false);
                                } else {
                                    assert(any_changed(ws, obs, i as int));
                                    assert(false);
                                }
                            }
                        }
                        assert(changed == any_changed(ws, obs, i + 1));
                    }
                },
                Err(e) => {
                    proof {
                        assert(obs[i as int] is None);
                        assert(first_none(obs, i as int) == i);
                        assert(snap[i as int] == ws[i as int]);
                        assert forall|j: int|
                            0 <= j < ws.len() implies #[trigger] self.spec_watchers()[j] == polled(
                            ws,
                            obs,
                            i as int,
                        )[j] by {
                            assert(self.spec_watchers()[j] == snap[j]);
                        }
                        assert(self.spec_watchers() =~= polled(ws, obs, i as int));
                    }
                    return Err(e);
                },
            }
            i += 1;
        }
        Ok(changed)
    }

    /// Commits or discards a reload. A failed candidate leaves this program
    /// untouched in every part — the running program keeps rendering. A
    /// successful candidate replaces the program wholesale: its table is the
    /// candidate's, with the old value spliced into every slot whose name
    /// and type survived; every slot is then covered by one forced upload
    /// pass, and the program ends not in use. The old handle is handed back
    /// for the host to delete only now, after the splice completed.
    pub fn try_reload(
        &mut self,
        logger: &mut HTMLLogger,
        candidate: Result<ShaderProgram<ST>, String>,
    ) -> (r: ReloadOutcome)
        requires
            old(logger).wf(),
            old(self).wf(),
            match candidate {
                Ok(c) => c.wf(),
                Err(_) => true,
            },
        ensures
            final(logger).wf(),
            final(self).wf(),
            match candidate {
                Err(reason) => {
                    &&& *final(self) == *old(self)
                    &&& r matches ReloadOutcome::Failed(m) && m == reason
                },
                Ok(c) => {
                    &&& r matches ReloadOutcome::Success(eff) && {
                        let merged = spliced_slots(old(self).spec_table(), c.spec_table());
                        &&& eff.retired_program == old(self).spec_id()
                        &&& eff.uploads@ == uploads_of(merged, true)
                        &&& eff.notes@.map_values(|n: CarryNote| (n.name@, n.reason))
                            == carry_notes(old(self).spec_table(), c.spec_table())
                        &&& final(self).spec_table() == all_clean(merged)
                    }
                    &&& final(self).spec_id() == c.spec_id()
                    &&& !final(self).spec_using()
                    &&& final(self).spec_watchers() == c.spec_watchers()
                    &&& final(self).spec_name() == old(self).spec_name()
                },
            },
    {
        match candidate {
            Ok(c) => {
                logger.open_scope("Reloading Uniforms".yellow().as_str());
                let (mut merged, notes) = UniformTable::spliced(&self.uniforms, &c.uniforms);
                let mut k: usize = 0;
                while k < notes.len()
                    invariant
                        logger.wf(),
                    decreases notes@.len() - k,
                {
                    let msg = "Uniform ".cyan().plus(notes[k].name.as_str().magenta()).plus(
                        match notes[k].reason {
                            crate::uniforms::CarryReason::TypeChanged => " type changed".red(),
                            crate::uniforms::CarryReason::Dropped => " not found".red(),
                        },
                    );
                    logger.info(msg.as_str());
                    k += 1;
                }
                logger.close_scope();

                // the candidate replaces the running program wholesale; the
                // splice already carried every surviving value across
                let retired = self.id;
                self.id = c.id;
                self.shaders = c.shaders;
                self.images = c.images;
                self.watchers = c.watchers;
                self.using = false;

                // force one upload pass so nothing is stale on first use
                let uploads = merged.take_uploads(true);
                self.uniforms = merged;

                ReloadOutcome::Success(
                    ReloadEffects { retired_program: retired, uploads, notes },
                )
            },
            Err(reason) => {
                logger.log("Reload failed; the running program stays".red().as_str());
                ReloadOutcome::Failed(reason)
            },
        }
    }
}

} // verus!
