use std::collections::VecDeque;
use vstd::prelude::*;

verus! {

/// The state of an upload.
#[derive(Clone, Copy, PartialEq, Eq, Structural, Debug)]
pub enum EstadoSubida {
    EnCola,
    Subiendo,
    Completado,
    Error,
}

/// The outcome of an upload to the repository: the size of the local file,
/// the number of bytes sent, and the public address of the file.
#[derive(Debug)]
pub struct SubidaRepo {
    pub size_original: u64,
    pub size_subido: u64,
    pub url: String,
}

impl SubidaRepo {
    /// A copy of the outcome.
    pub fn duplicar(&self) -> (r: SubidaRepo)
        ensures
            r == *self,
    {
        SubidaRepo {
            size_original: self.size_original,
            size_subido: self.size_subido,
            url: self.url.clone(),
        }
    }
}

/// The connection data of an upload: user and host of the repository, and
/// institution, dataset and file name under which the file is published.
#[derive(Debug)]
pub struct ConexionConfig {
    pub usuario: String,
    pub host: String,
    pub institucion: String,
    pub conjunto: String,
    pub archivo: String,
}

/// An upload job.
#[derive(Debug)]
pub struct TrabajoSubida {
    pub id: u64,
    pub usuario: String,
    pub host: String,
    pub institucion: String,
    pub conjunto: String,
    pub archivo_local: String,
    pub archivo_remoto: String,
    pub estado: EstadoSubida,
    pub resultado: Option<SubidaRepo>,
    pub error: Option<String>,
}

fn duplicar_texto(o: &Option<String>) -> (r: Option<String>)
    ensures
        r == *o,
{
    match o {
        Some(s) => Some(s.clone()),
        None => None,
    }
}

impl TrabajoSubida {
    /// A copy of the job.
    pub fn duplicar(&self) -> (r: TrabajoSubida)
        ensures
            r == *self,
    {
        TrabajoSubida {
            id: self.id,
            usuario: self.usuario.clone(),
            host: self.host.clone(),
            institucion: self.institucion.clone(),
            conjunto: self.conjunto.clone(),
            archivo_local: self.archivo_local.clone(),
            archivo_remoto: self.archivo_remoto.clone(),
            estado: self.estado,
            resultado: match &self.resultado {
                Some(s) => Some(s.duplicar()),
                None => None,
            },
            error: duplicar_texto(&self.error),
        }
    }
}

/// A new job, queued, for the local file `archivo_local` published under
/// the file name of the configuration.
pub open spec fn trabajo_nuevo(id: u64, config: ConexionConfig, archivo_local: String) -> TrabajoSubida {
    TrabajoSubida {
        id,
        usuario: config.usuario,
        host: config.host,
        institucion: config.institucion,
        conjunto: config.conjunto,
        archivo_local,
        archivo_remoto: config.archivo,
        estado: EstadoSubida::EnCola,
        resultado: None,
        error: None,
    }
}

/// The queue of uploads: the jobs waiting, the job being uploaded, and the
/// jobs already processed.
pub struct ColaSubidas {
    pub pendientes: VecDeque<TrabajoSubida>,
    pub en_proceso: Option<TrabajoSubida>,
    pub historico: Vec<TrabajoSubida>,
}

/// The contents of the queue.
#[verifier::ext_equal]
pub struct VistaCola {
    pub pendientes: Seq<TrabajoSubida>,
    pub en_proceso: Option<TrabajoSubida>,
    pub historico: Seq<TrabajoSubida>,
}

impl View for ColaSubidas {
    type V = VistaCola;

    open spec fn view(&self) -> VistaCola {
        VistaCola {
            pendientes: self.pendientes@,
            en_proceso: self.en_proceso,
            historico: self.historico@,
        }
    }
}

pub open spec fn como_seq(o: Option<TrabajoSubida>) -> Seq<TrabajoSubida> {
    match o {
        Some(t) => seq![t],
        None => seq![],
    }
}

/// The jobs as the queue lists them: processed, in process, waiting.
pub open spec fn listado(v: VistaCola) -> Seq<TrabajoSubida> {
    v.historico + como_seq(v.en_proceso) + v.pendientes
}

pub open spec fn ids(s: Seq<TrabajoSubida>) -> Seq<u64> {
    s.map_values(|t: TrabajoSubida| t.id)
}

/// A job waiting: queued, without error.
pub open spec fn en_espera(t: TrabajoSubida) -> bool {
    t.estado == EstadoSubida::EnCola && t.error is None
}

/// A job already processed: completed with an outcome and without error, or
/// failed with an error message.
pub open spec fn procesado(t: TrabajoSubida) -> bool {
    ||| t.estado == EstadoSubida::Completado && t.error is None && t.resultado is Some
    ||| t.estado == EstadoSubida::Error && t.error is Some
}

/// Every job is in the state that its place in the queue implies: waiting
/// jobs are queued and without error, the job in process is being uploaded
/// and without error, and processed jobs are completed with an outcome or
/// failed with an error.
pub open spec fn coherente(v: VistaCola) -> bool {
    &&& forall|i: int| 0 <= i < v.pendientes.len() ==> en_espera(#[trigger] v.pendientes[i])
    &&& forall|t: TrabajoSubida|
        v.en_proceso == Some(t) ==> t.estado == EstadoSubida::Subiendo && t.error is None
    &&& forall|i: int| 0 <= i < v.historico.len() ==> procesado(#[trigger] v.historico[i])
}

/// The queue after a new job is added at the end.
pub open spec fn agregado(v: VistaCola, t: TrabajoSubida) -> VistaCola {
    VistaCola { pendientes: v.pendientes.push(t), ..v }
}

/// The queue after the worker takes the first waiting job, and that job.
pub open spec fn tomado(v: VistaCola) -> (VistaCola, Option<TrabajoSubida>) {
    if v.pendientes.len() == 0 {
        (v, None)
    } else {
        let t = TrabajoSubida { estado: EstadoSubida::Subiendo, ..v.pendientes[0] };
        (
            VistaCola {
                pendientes: v.pendientes.drop_first(),
                en_proceso: Some(t),
                historico: v.historico,
            },
            Some(t),
        )
    }
}

/// A job after its upload ended with `res`.
pub open spec fn con_resultado(t: TrabajoSubida, res: Result<SubidaRepo, String>) -> TrabajoSubida {
    match res {
        Ok(s) => TrabajoSubida { estado: EstadoSubida::Completado, resultado: Some(s), ..t },
        Err(e) => TrabajoSubida { estado: EstadoSubida::Error, error: Some(e), ..t },
    }
}

/// The queue after the upload of job `t` ended with `res`: no job is in
/// process and the job is appended to the processed ones.
pub open spec fn finalizado(v: VistaCola, t: TrabajoSubida, res: Result<SubidaRepo, String>) -> VistaCola {
    VistaCola { en_proceso: None, historico: v.historico.push(con_resultado(t, res)), ..v }
}

/// A job queued again: waiting, without error.
pub open spec fn para_reencolar(t: TrabajoSubida) -> TrabajoSubida {
    TrabajoSubida { estado: EstadoSubida::EnCola, error: None, ..t }
}

/// The queue after job `t` is queued again at the end.
pub open spec fn reencolado(v: VistaCola, t: TrabajoSubida) -> VistaCola {
    VistaCola { pendientes: v.pendientes.push(para_reencolar(t)), ..v }
}

/// Why a job cannot be retried.
#[derive(Clone, Copy, PartialEq, Eq, Debug)]
pub enum ErrorCola {
    /// No processed job has the identifier.
    TrabajoNoEncontrado,
    /// The job did not end with an error.
    TrabajoSinError,
}

impl ErrorCola {
    /// The message that the application shows.
    pub fn mensaje(&self) -> (r: String)
        ensures
            r@ == (match self {
                ErrorCola::TrabajoNoEncontrado => "Trabajo no encontrado"@,
                ErrorCola::TrabajoSinError => "El trasbajo no tiene error"@,
            }),
    {
        match self {
            ErrorCola::TrabajoNoEncontrado => String::from_str("Trabajo no encontrado"),
            ErrorCola::TrabajoSinError => String::from_str("El trasbajo no tiene error"),
        }
    }
}

/// The position of the first processed job with identifier `id`, or `-1`
/// when there is none.
pub open spec fn posicion(h: Seq<TrabajoSubida>, id: u64) -> int
    decreases h.len(),
{
    if h.len() == 0 {
        -1
    } else if h[0].id == id {
        0
    } else {
        let r = posicion(h.drop_first(), id);
        if r < 0 {
            -1
        } else {
            r + 1
        }
    }
}

/// The queue after a retry of job `id` is requested, and the outcome: the
/// first processed job with that identifier is taken out of the processed
/// jobs; it is handed back when it had ended with an error, and is otherwise
/// dropped.
pub open spec fn preparado(v: VistaCola, id: u64) -> (VistaCola, Result<TrabajoSubida, ErrorCola>) {
    if posicion(v.historico, id) < 0 {
        (v, Err(ErrorCola::TrabajoNoEncontrado))
    } else {
        let p = posicion(v.historico, id);
        let t = v.historico[p];
        let v2 = VistaCola { historico: v.historico.remove(p), ..v };
        if t.estado == EstadoSubida::Error {
            (v2, Ok(t))
        } else {
            (v2, Err(ErrorCola::TrabajoSinError))
        }
    }
}

proof fn lema_posicion(h: Seq<TrabajoSubida>, id: u64)
    ensures
        -1 <= posicion(h, id) < h.len(),
        posicion(h, id) >= 0 ==> h[posicion(h, id)].id == id,
        forall|q: int| 0 <= q < h.len() && (posicion(h, id) < 0 || q < posicion(h, id)) ==> (#[trigger] h[q]).id != id,
    decreases h.len(),
{
    if h.len() > 0 && h[0].id != id {
        lema_posicion(h.drop_first(), id);
        assert forall|q: int| 0 <= q < h.len() && (posicion(h, id) < 0 || q < posicion(h, id)) implies (#[trigger] h[q]).id != id by {
            if q > 0 {
                assert(h[q] == h.drop_first()[q - 1]);
            }
        }
    }
}

impl ColaSubidas {
    /// An empty queue.
    pub fn new() -> (r: ColaSubidas)
        ensures
            r@.pendientes == Seq::<TrabajoSubida>::empty(),
            r@.en_proceso is None,
            r@.historico == Seq::<TrabajoSubida>::empty(),
    {
        ColaSubidas { pendientes: VecDeque::new(), en_proceso: None, historico: Vec::new() }
    }

    /// Queues a new upload of `archivo_local` with identifier `id`, and
    /// returns the identifier.
    pub fn agregar_subida(&mut self, id: u64, config: ConexionConfig, archivo_local: String) -> (r: u64)
        ensures
            r == id,
            final(self)@ == agregado(old(self)@, trabajo_nuevo(id, config, archivo_local)),
            final(self)@.pendientes.len() == old(self)@.pendientes.len() + 1,
            final(self)@.pendientes.last().id == id,
            final(self)@.pendientes.last().usuario == config.usuario,
            final(self)@.pendientes.last().host == config.host,
            final(self)@.pendientes.last().institucion == config.institucion,
            final(self)@.pendientes.last().conjunto == config.conjunto,
            final(self)@.pendientes.last().archivo_local == archivo_local,
            final(self)@.pendientes.last().archivo_remoto == config.archivo,
            final(self)@.pendientes.last().estado == EstadoSubida::EnCola,
            final(self)@.pendientes.last().resultado is None,
            final(self)@.pendientes.last().error is None,
    {
        let ghost t = trabajo_nuevo(id, config, archivo_local);
        let trabajo = TrabajoSubida {
            id,
            usuario: config.usuario,
            host: config.host,
            institucion: config.institucion,
            conjunto: config.conjunto,
            archivo_local,
            archivo_remoto: config.archivo,
            estado: EstadoSubida::EnCola,
            resultado: None,
            error: None,
        };
        assert(trabajo == t);
        self.pendientes.push_back(trabajo);
        id
    }

    /// All jobs: the processed ones, the one in process, the waiting ones.
    pub fn obtener_cola(&self) -> (r: Vec<TrabajoSubida>)
        ensures
            r@ == listado(self@),
    {
        let mut r: Vec<TrabajoSubida> = Vec::new();
        let mut i: usize = 0;
        while i < self.historico.len()
            invariant
                i <= self.historico.len(),
                r@ == self.historico@.take(i as int),
            decreases self.historico.len() - i,
        {
            r.push(self.historico[i].duplicar());
            i += 1;
            assert(r@ =~= self.historico@.take(i as int));
        }
        assert(self.historico@.take(self.historico.len() as int) == self.historico@);
        match &self.en_proceso {
            Some(t) => {
                r.push(t.duplicar());
            },
            None => {},
        }
        let ghost base = r@;
        assert(base == self@.historico + como_seq(self@.en_proceso));
        let mut j: usize = 0;
        while j < self.pendientes.len()
            invariant
                j <= self.pendientes.len(),
                r@ == base + self.pendientes@.take(j as int),
            decreases self.pendientes.len() - j,
        {
            r.push(self.pendientes[j].duplicar());
            j += 1;
            assert(r@ =~= base + self.pendientes@.take(j as int));
        }
        assert(self.pendientes@.take(self.pendientes.len() as int) == self.pendientes@);
        r
    }

    /// The worker takes the first waiting job: it becomes the job in process,
    /// in the state of being uploaded.
    pub fn tomar_siguiente(&mut self) -> (r: Option<TrabajoSubida>)
        ensures
            (final(self)@, r) == tomado(old(self)@),
    {
        match self.pendientes.pop_front() {
            Some(trabajo) => {
                let mut trabajo = trabajo;
                trabajo.estado = EstadoSubida::Subiendo;
                self.en_proceso = Some(trabajo.duplicar());
                assert(self.pendientes@ =~= old(self)@.pendientes.drop_first());
                Some(trabajo)
            },
            None => None,
        }
    }

    /// The upload of job `trabajo` ended with `resultado`: the job is marked
    /// completed (with its outcome) or failed (with the error message), no
    /// job is in process any more, and the job joins the processed ones.
    pub fn finalizar(&mut self, trabajo: TrabajoSubida, resultado: Result<SubidaRepo, String>)
        ensures
            final(self)@ == finalizado(old(self)@, trabajo, resultado),
    {
        let mut trabajo = trabajo;
        match resultado {
            Ok(s) => {
                trabajo.estado = EstadoSubida::Completado;
                trabajo.resultado = Some(s);
            },
            Err(e) => {
                trabajo.estado = EstadoSubida::Error;
                trabajo.error = Some(e);
            },
        }
        self.en_proceso = None;
        self.historico.push(trabajo);
    }

    /// First step of a retry of job `id`: the first processed job with that
    /// identifier is taken out; it is handed back if it failed, and dropped
    /// otherwise (see `preparado`).
    pub fn preparar_reintento(&mut self, id: u64) -> (r: Result<TrabajoSubida, ErrorCola>)
        ensures
            (final(self)@, r) == preparado(old(self)@, id),
    {
        let mut p: usize = 0;
        while p < self.historico.len() && self.historico[p].id != id
            invariant
                p <= self.historico.len(),
                forall|q: int| 0 <= q < p ==> (#[trigger] self.historico@[q]).id != id,
            decreases self.historico.len() - p,
        {
            p += 1;
        }
        proof {
            lema_posicion(self.historico@, id);
        }
        if p == self.historico.len() {
            return Err(ErrorCola::TrabajoNoEncontrado);
        }
        proof {
            let pp = posicion(self.historico@, id);
            assert(pp == p);
        }
        let trabajo = self.historico.remove(p);
        assert(self@ =~= VistaCola { historico: old(self)@.historico.remove(p as int), ..old(self)@ });
        if trabajo.estado != EstadoSubida::Error {
            return Err(ErrorCola::TrabajoSinError);
        }
        Ok(trabajo)
    }

    /// Second step of a retry: the job is queued again at the end, waiting
    /// and without error.
    pub fn reencolar(&mut self, trabajo: TrabajoSubida)
        ensures
            final(self)@ == reencolado(old(self)@, trabajo),
    {
        let mut trabajo = trabajo;
        trabajo.estado = EstadoSubida::EnCola;
        trabajo.error = None;
        self.pendientes.push_back(trabajo);
    }
}

/// A new job goes to the end of the listing.
pub proof fn lema_agregar_al_final(v: VistaCola, t: TrabajoSubida)
    ensures
        listado(agregado(v, t)) == listado(v).push(t),
{
    assert(listado(agregado(v, t)) =~= listado(v).push(t));
}

/// A round of the worker (take the first waiting job, then record the
/// outcome of its upload) neither loses nor reorders jobs: the identifiers
/// in the listing stay the same, in the same order, at every step.
pub proof fn lema_ronda_conserva_trabajos(v: VistaCola, res: Result<SubidaRepo, String>)
    requires
        v.en_proceso is None,
    ensures
        ids(listado(tomado(v).0)) == ids(listado(v)),
        match tomado(v).1 {
            Some(j) => ids(listado(finalizado(tomado(v).0, j, res))) == ids(listado(v)),
            None => tomado(v).0 == v,
        },
{
    let (v1, o) = tomado(v);
    match o {
        Some(j) => {
            assert(listado(v) =~= v.historico + seq![v.pendientes[0]] + v.pendientes.drop_first());
            assert(listado(v1) =~= v.historico + seq![j] + v.pendientes.drop_first());
            assert(ids(listado(v1)) =~= ids(listado(v)));
            let v2 = finalizado(v1, j, res);
            assert(listado(v2) =~= v.historico.push(con_resultado(j, res)) + v.pendientes.drop_first());
            assert(ids(listado(v2)) =~= ids(listado(v)));
        },
        None => {},
    }
}

/// Every operation keeps each job in the state that its place implies: a
/// new job is added, the worker takes the next job, the job in process
/// finishes, a retry is prepared, a job handed back by a retry is queued.
pub proof fn lema_coherencia(
    v: VistaCola,
    id: u64,
    config: ConexionConfig,
    archivo_local: String,
    t: TrabajoSubida,
    res: Result<SubidaRepo, String>,
)
    requires
        coherente(v),
    ensures
        coherente(agregado(v, trabajo_nuevo(id, config, archivo_local))),
        coherente(tomado(v).0),
        v.en_proceso == Some(t) ==> coherente(finalizado(v, t, res)),
        coherente(preparado(v, id).0),
        coherente(reencolado(v, t)),
{
    let a = agregado(v, trabajo_nuevo(id, config, archivo_local));
    assert forall|i: int| 0 <= i < a.pendientes.len() implies en_espera(#[trigger] a.pendientes[i]) by {
        if i < v.pendientes.len() {
            assert(a.pendientes[i] == v.pendientes[i]);
        }
    }
    let b = tomado(v).0;
    if v.pendientes.len() > 0 {
        assert(en_espera(v.pendientes[0]));
        assert forall|i: int| 0 <= i < b.pendientes.len() implies en_espera(#[trigger] b.pendientes[i]) by {
            assert(b.pendientes[i] == v.pendientes[i + 1]);
        }
    }
    if v.en_proceso == Some(t) {
        let c = finalizado(v, t, res);
        assert forall|i: int| 0 <= i < c.historico.len() implies procesado(#[trigger] c.historico[i]) by {
            if i < v.historico.len() {
                assert(c.historico[i] == v.historico[i]);
            }
        }
    }
    lema_posicion(v.historico, id);
    let d = preparado(v, id).0;
    if posicion(v.historico, id) >= 0 {
        let p = posicion(v.historico, id);
        assert forall|i: int| 0 <= i < d.historico.len() implies procesado(#[trigger] d.historico[i]) by {
            if i < p {
                assert(d.historico[i] == v.historico[i]);
            } else {
                assert(d.historico[i] == v.historico[i + 1]);
            }
        }
    }
    let e = reencolado(v, t);
    assert forall|i: int| 0 <= i < e.pendientes.len() implies en_espera(#[trigger] e.pendientes[i]) by {
        if i < v.pendientes.len() {
            assert(e.pendientes[i] == v.pendientes[i]);
        }
    }
}

/// A retry moves a failed job from the processed jobs to the end of the
/// waiting ones; a job that did not fail is taken out of the listing; an
/// unknown identifier changes nothing.
pub proof fn lema_reintento(v: VistaCola, id: u64)
    ensures
        match preparado(v, id).1 {
            Ok(t) => t.id == id && ids(listado(reencolado(preparado(v, id).0, t))) == ids(
                listado(v),
            ).remove(posicion(v.historico, id)).push(id),
            Err(ErrorCola::TrabajoSinError) => ids(listado(preparado(v, id).0)) == ids(
                listado(v),
            ).remove(posicion(v.historico, id)),
            Err(ErrorCola::TrabajoNoEncontrado) => preparado(v, id).0 == v,
        },
{
    lema_posicion(v.historico, id);
    let p = posicion(v.historico, id);
    if p >= 0 {
        let v2 = preparado(v, id).0;
        assert(listado(v2) =~= listado(v).remove(p));
        assert(ids(listado(v2)) =~= ids(listado(v)).remove(p));
        match preparado(v, id).1 {
            Ok(t) => {
                let v3 = reencolado(v2, t);
                assert(listado(v3) =~= listado(v2).push(para_reencolar(t)));
                assert(ids(listado(v3)) =~= ids(listado(v2)).push(id));
            },
            _ => {},
        }
    }
}

/// Jobs run in the order in which they were added: adding a job does not
/// change which waiting job the worker takes next, and a job added to a queue
/// with nothing waiting is the next one taken.
pub proof fn lema_orden_de_llegada(v: VistaCola, t: TrabajoSubida)
    ensures
        v.pendientes.len() > 0 ==> tomado(agregado(v, t)).1 == tomado(v).1,
        v.pendientes.len() == 0 ==> tomado(agregado(v, t)).1 == Some(
            TrabajoSubida { estado: EstadoSubida::Subiendo, ..t },
        ),
{
    assert(agregado(v, t).pendientes[0] == if v.pendientes.len() > 0 {
        v.pendientes[0]
    } else {
        t
    });
}

/// What happens to the queue while the worker runs: a job is added, or the
/// worker does a round (it takes the next waiting job, if any, and that job's
/// upload ends with the given outcome).
pub enum EventoCola {
    Agregar(TrabajoSubida),
    Ronda(Result<SubidaRepo, String>),
}

/// The queue after one round of the worker.
pub open spec fn ronda(v: VistaCola, res: Result<SubidaRepo, String>) -> VistaCola {
    match tomado(v).1 {
        Some(j) => finalizado(tomado(v).0, j, res),
        None => tomado(v).0,
    }
}

pub open spec fn paso(v: VistaCola, e: EventoCola) -> VistaCola {
    match e {
        EventoCola::Agregar(t) => agregado(v, t),
        EventoCola::Ronda(res) => ronda(v, res),
    }
}

/// The queue after the events, in order.
pub open spec fn ejecucion(v: VistaCola, es: Seq<EventoCola>) -> VistaCola
    decreases es.len(),
{
    if es.len() == 0 {
        v
    } else {
        paso(ejecucion(v, es.drop_last()), es.last())
    }
}

/// The identifiers of the jobs added by the events, in order.
pub open spec fn ids_agregados(es: Seq<EventoCola>) -> Seq<u64>
    decreases es.len(),
{
    if es.len() == 0 {
        seq![]
    } else {
        match es.last() {
            EventoCola::Agregar(t) => ids_agregados(es.drop_last()).push(t.id),
            EventoCola::Ronda(_) => ids_agregados(es.drop_last()),
        }
    }
}

/// Over any run of the worker, with jobs added at any time, jobs are
/// processed one at a time in the order in which they arrived: no job is in
/// process between rounds, the processed jobs keep their place, and the
/// processed jobs followed by the waiting ones are exactly the jobs that were
/// there and those added, each once, in arrival order. A round with no job
/// waiting changes nothing.
pub proof fn lema_fifo(v: VistaCola, es: Seq<EventoCola>)
    requires
        v.en_proceso is None,
    ensures
        ejecucion(v, es).en_proceso is None,
        ejecucion(v, es).historico.len() >= v.historico.len(),
        ejecucion(v, es).historico.take(v.historico.len() as int) == v.historico,
        ids(ejecucion(v, es).historico) + ids(ejecucion(v, es).pendientes) == ids(v.historico) + ids(
            v.pendientes,
        ) + ids_agregados(es),
        forall|res: Result<SubidaRepo, String>|
            v.pendientes.len() == 0 ==> #[trigger] ronda(v, res) == v,
    decreases es.len(),
{
    if es.len() == 0 {
        assert(v.historico.take(v.historico.len() as int) =~= v.historico);
        assert(ids(v.historico) + ids(v.pendientes) + ids_agregados(es) =~= ids(v.historico) + ids(
            v.pendientes,
        ));
    } else {
        lema_fifo(v, es.drop_last());
        let w = ejecucion(v, es.drop_last());
        let n = v.historico.len() as int;
        match es.last() {
            EventoCola::Agregar(t) => {
                let w2 = agregado(w, t);
                assert(ids(w2.pendientes) =~= ids(w.pendientes).push(t.id));
                assert(ids(w2.historico) + ids(w2.pendientes) =~= (ids(w.historico) + ids(
                    w.pendientes,
                )).push(t.id));
                assert((ids(v.historico) + ids(v.pendientes) + ids_agregados(es.drop_last())).push(
                    t.id,
                ) =~= ids(v.historico) + ids(v.pendientes) + ids_agregados(es));
            },
            EventoCola::Ronda(res) => {
                if w.pendientes.len() > 0 {
                    let j = tomado(w).1.unwrap();
                    let w2 = ronda(w, res);
                    assert(w2.historico == w.historico.push(con_resultado(j, res)));
                    assert(w2.pendientes == w.pendientes.drop_first());
                    assert(ids(w2.historico) + ids(w2.pendientes) =~= ids(w.historico) + ids(
                        w.pendientes,
                    )) by {
                        assert(ids(w.pendientes) =~= seq![w.pendientes[0].id] + ids(
                            w.pendientes.drop_first(),
                        ));
                        assert(ids(w2.historico) =~= ids(w.historico).push(w.pendientes[0].id));
                    }
                    assert(w2.historico.take(n) =~= w.historico.take(n));
                }
            },
        }
    }
}

/// A new job carries the configuration unchanged: its user, host,
/// institution and dataset are those of the configuration, it is published
/// under the configuration's file name, it uploads the given local file, and
/// it waits with no outcome and no error. Added to a queue, it is the last
/// waiting job and nothing else changes.
pub proof fn lema_trabajo_agregado(v: VistaCola, id: u64, config: ConexionConfig, archivo_local: String)
    ensures
        ({
            let t = trabajo_nuevo(id, config, archivo_local);
            &&& t.id == id
            &&& t.usuario == config.usuario
            &&& t.host == config.host
            &&& t.institucion == config.institucion
            &&& t.conjunto == config.conjunto
            &&& t.archivo_local == archivo_local
            &&& t.archivo_remoto == config.archivo
            &&& t.estado == EstadoSubida::EnCola
            &&& t.resultado is None
            &&& t.error is None
        }),
        ({
            let w = agregado(v, trabajo_nuevo(id, config, archivo_local));
            &&& w.pendientes.len() == v.pendientes.len() + 1
            &&& w.pendientes.take(v.pendientes.len() as int) == v.pendientes
            &&& w.pendientes.last().institucion == config.institucion
            &&& w.pendientes.last().conjunto == config.conjunto
            &&& w.en_proceso == v.en_proceso
            &&& w.historico == v.historico
        }),
{
    let w = agregado(v, trabajo_nuevo(id, config, archivo_local));
    assert(w.pendientes.take(v.pendientes.len() as int) =~= v.pendientes);
}

} // verus!
